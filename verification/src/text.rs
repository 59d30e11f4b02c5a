//! The textual document form of a level setup, byte for byte.
//!
//! Structured assets serialize to a plain-text document with a leading
//! `type:` key and three top-level mappings, `voxels:`, `cameras:` and
//! `lightings:`, in that order.  Scalar fields are decimal integers,
//! opaque records are byte-array literals, and the lighting floats are
//! written as their four raw big-endian bytes so that every bit pattern
//! survives the trip.  The writer emits one fixed layout; the reader
//! reads exactly that layout back, and the pair is proved to be
//! mutually inverse.
//!
//! The document is ASCII throughout, so both sides work on bytes.

use vstd::prelude::*;
use crate::bytes::be32;
use crate::level_codec::{camera_views, obj_views, prop_views, section_views};
use crate::error::{ErrorKind, ParseError, Phase};
use crate::level::{
    CameraNode, CameraNodeList, CameraNodeSection, CameraNodeSectionV, CameraNodeV, LevelSetup,
    LevelSetupV, LightingNode, LightingNodeList, Rgb, Vec2Bits, Vec3Bits, Vec3i, Voxel, VoxelList,
    VoxelListV, VoxelV,
};

verus! {

// ---------------------------------------------------------------------
// Fragments of the fixed layout
// ---------------------------------------------------------------------

/// The document fragment `type: LevelSetup\n`.
#[verifier::opaque]
pub open spec fn txt_doc_type() -> Seq<u8> {
    seq!['t' as u8, 'y' as u8, 'p' as u8, 'e' as u8, ':' as u8, ' ' as u8, 'L' as u8, 'e' as u8, 'v' as u8, 'e' as u8, 'l' as u8, 'S' as u8, 'e' as u8, 't' as u8, 'u' as u8, 'p' as u8, '\n' as u8]
}

/// The document fragment `voxels:\n`.
#[verifier::opaque]
pub open spec fn txt_voxels_hdr() -> Seq<u8> {
    seq!['v' as u8, 'o' as u8, 'x' as u8, 'e' as u8, 'l' as u8, 's' as u8, ':' as u8, '\n' as u8]
}

/// The document fragment `  startPosition: { x: `.
#[verifier::opaque]
pub open spec fn txt_start_pos() -> Seq<u8> {
    seq![' ' as u8, ' ' as u8, 's' as u8, 't' as u8, 'a' as u8, 'r' as u8, 't' as u8, 'P' as u8, 'o' as u8, 's' as u8, 'i' as u8, 't' as u8, 'i' as u8, 'o' as u8, 'n' as u8, ':' as u8, ' ' as u8, '{' as u8, ' ' as u8, 'x' as u8, ':' as u8, ' ' as u8]
}

/// The document fragment `  endPosition: { x: `.
#[verifier::opaque]
pub open spec fn txt_end_pos() -> Seq<u8> {
    seq![' ' as u8, ' ' as u8, 'e' as u8, 'n' as u8, 'd' as u8, 'P' as u8, 'o' as u8, 's' as u8, 'i' as u8, 't' as u8, 'i' as u8, 'o' as u8, 'n' as u8, ':' as u8, ' ' as u8, '{' as u8, ' ' as u8, 'x' as u8, ':' as u8, ' ' as u8]
}

/// The document fragment `, y: `.
#[verifier::opaque]
pub open spec fn txt_comma_y() -> Seq<u8> {
    seq![',' as u8, ' ' as u8, 'y' as u8, ':' as u8, ' ' as u8]
}

/// The document fragment `, z: `.
#[verifier::opaque]
pub open spec fn txt_comma_z() -> Seq<u8> {
    seq![',' as u8, ' ' as u8, 'z' as u8, ':' as u8, ' ' as u8]
}

/// The document fragment ` }\n`.
#[verifier::opaque]
pub open spec fn txt_close_map() -> Seq<u8> {
    seq![' ' as u8, '}' as u8, '\n' as u8]
}

/// The document fragment `  voxels:\n`.
#[verifier::opaque]
pub open spec fn txt_voxels_list() -> Seq<u8> {
    seq![' ' as u8, ' ' as u8, 'v' as u8, 'o' as u8, 'x' as u8, 'e' as u8, 'l' as u8, 's' as u8, ':' as u8, '\n' as u8]
}

/// The document fragment `    - {\n`.
#[verifier::opaque]
pub open spec fn txt_entry_open() -> Seq<u8> {
    seq![' ' as u8, ' ' as u8, ' ' as u8, ' ' as u8, '-' as u8, ' ' as u8, '{' as u8, '\n' as u8]
}

/// The document fragment `      objects: [],\n`.
#[verifier::opaque]
pub open spec fn txt_objects_none() -> Seq<u8> {
    seq![' ' as u8, ' ' as u8, ' ' as u8, ' ' as u8, ' ' as u8, ' ' as u8, 'o' as u8, 'b' as u8, 'j' as u8, 'e' as u8, 'c' as u8, 't' as u8, 's' as u8, ':' as u8, ' ' as u8, '[' as u8, ']' as u8, ',' as u8, '\n' as u8]
}

/// The document fragment `      objects: [\n`.
#[verifier::opaque]
pub open spec fn txt_objects_open() -> Seq<u8> {
    seq![' ' as u8, ' ' as u8, ' ' as u8, ' ' as u8, ' ' as u8, ' ' as u8, 'o' as u8, 'b' as u8, 'j' as u8, 'e' as u8, 'c' as u8, 't' as u8, 's' as u8, ':' as u8, ' ' as u8, '[' as u8, '\n' as u8]
}

/// The document fragment `        `.
#[verifier::opaque]
pub open spec fn txt_item_indent() -> Seq<u8> {
    seq![' ' as u8, ' ' as u8, ' ' as u8, ' ' as u8, ' ' as u8, ' ' as u8, ' ' as u8, ' ' as u8]
}

/// The document fragment `,\n`.
#[verifier::opaque]
pub open spec fn txt_item_end() -> Seq<u8> {
    seq![',' as u8, '\n' as u8]
}

/// The document fragment `      ],\n`.
#[verifier::opaque]
pub open spec fn txt_objects_close() -> Seq<u8> {
    seq![' ' as u8, ' ' as u8, ' ' as u8, ' ' as u8, ' ' as u8, ' ' as u8, ']' as u8, ',' as u8, '\n' as u8]
}

/// The document fragment `      props: []\n`.
#[verifier::opaque]
pub open spec fn txt_props_none() -> Seq<u8> {
    seq![' ' as u8, ' ' as u8, ' ' as u8, ' ' as u8, ' ' as u8, ' ' as u8, 'p' as u8, 'r' as u8, 'o' as u8, 'p' as u8, 's' as u8, ':' as u8, ' ' as u8, '[' as u8, ']' as u8, '\n' as u8]
}

/// The document fragment `      props: [\n`.
#[verifier::opaque]
pub open spec fn txt_props_open() -> Seq<u8> {
    seq![' ' as u8, ' ' as u8, ' ' as u8, ' ' as u8, ' ' as u8, ' ' as u8, 'p' as u8, 'r' as u8, 'o' as u8, 'p' as u8, 's' as u8, ':' as u8, ' ' as u8, '[' as u8, '\n' as u8]
}

/// The document fragment `      ]\n`.
#[verifier::opaque]
pub open spec fn txt_props_close() -> Seq<u8> {
    seq![' ' as u8, ' ' as u8, ' ' as u8, ' ' as u8, ' ' as u8, ' ' as u8, ']' as u8, '\n' as u8]
}

/// The document fragment `    }\n`.
#[verifier::opaque]
pub open spec fn txt_entry_close() -> Seq<u8> {
    seq![' ' as u8, ' ' as u8, ' ' as u8, ' ' as u8, '}' as u8, '\n' as u8]
}

/// The document fragment `cameras: []\n`.
#[verifier::opaque]
pub open spec fn txt_cameras_none() -> Seq<u8> {
    seq!['c' as u8, 'a' as u8, 'm' as u8, 'e' as u8, 'r' as u8, 'a' as u8, 's' as u8, ':' as u8, ' ' as u8, '[' as u8, ']' as u8, '\n' as u8]
}

/// The document fragment `cameras:\n`.
#[verifier::opaque]
pub open spec fn txt_cameras_hdr() -> Seq<u8> {
    seq!['c' as u8, 'a' as u8, 'm' as u8, 'e' as u8, 'r' as u8, 'a' as u8, 's' as u8, ':' as u8, '\n' as u8]
}

/// The document fragment `  -\n    index: `.
#[verifier::opaque]
pub open spec fn txt_camera_entry() -> Seq<u8> {
    seq![' ' as u8, ' ' as u8, '-' as u8, '\n' as u8, ' ' as u8, ' ' as u8, ' ' as u8, ' ' as u8, 'i' as u8, 'n' as u8, 'd' as u8, 'e' as u8, 'x' as u8, ':' as u8, ' ' as u8]
}

/// The document fragment `\n    type: `.
#[verifier::opaque]
pub open spec fn txt_camera_type() -> Seq<u8> {
    seq!['\n' as u8, ' ' as u8, ' ' as u8, ' ' as u8, ' ' as u8, 't' as u8, 'y' as u8, 'p' as u8, 'e' as u8, ':' as u8, ' ' as u8]
}

/// The document fragment `\n`.
#[verifier::opaque]
pub open spec fn txt_newline() -> Seq<u8> {
    seq!['\n' as u8]
}

/// The document fragment `    sections: []\n`.
#[verifier::opaque]
pub open spec fn txt_sections_none() -> Seq<u8> {
    seq![' ' as u8, ' ' as u8, ' ' as u8, ' ' as u8, 's' as u8, 'e' as u8, 'c' as u8, 't' as u8, 'i' as u8, 'o' as u8, 'n' as u8, 's' as u8, ':' as u8, ' ' as u8, '[' as u8, ']' as u8, '\n' as u8]
}

/// The document fragment `    sections:\n`.
#[verifier::opaque]
pub open spec fn txt_sections_hdr() -> Seq<u8> {
    seq![' ' as u8, ' ' as u8, ' ' as u8, ' ' as u8, 's' as u8, 'e' as u8, 'c' as u8, 't' as u8, 'i' as u8, 'o' as u8, 'n' as u8, 's' as u8, ':' as u8, '\n' as u8]
}

/// The document fragment `      - { section: `.
#[verifier::opaque]
pub open spec fn txt_section_entry() -> Seq<u8> {
    seq![' ' as u8, ' ' as u8, ' ' as u8, ' ' as u8, ' ' as u8, ' ' as u8, '-' as u8, ' ' as u8, '{' as u8, ' ' as u8, 's' as u8, 'e' as u8, 'c' as u8, 't' as u8, 'i' as u8, 'o' as u8, 'n' as u8, ':' as u8, ' ' as u8]
}

/// The document fragment `, bytes: `.
#[verifier::opaque]
pub open spec fn txt_section_bytes() -> Seq<u8> {
    seq![',' as u8, ' ' as u8, 'b' as u8, 'y' as u8, 't' as u8, 'e' as u8, 's' as u8, ':' as u8, ' ' as u8]
}

/// The document fragment `lightings: []\n`.
#[verifier::opaque]
pub open spec fn txt_lightings_none() -> Seq<u8> {
    seq!['l' as u8, 'i' as u8, 'g' as u8, 'h' as u8, 't' as u8, 'i' as u8, 'n' as u8, 'g' as u8, 's' as u8, ':' as u8, ' ' as u8, '[' as u8, ']' as u8, '\n' as u8]
}

/// The document fragment `lightings:\n`.
#[verifier::opaque]
pub open spec fn txt_lightings_hdr() -> Seq<u8> {
    seq!['l' as u8, 'i' as u8, 'g' as u8, 'h' as u8, 't' as u8, 'i' as u8, 'n' as u8, 'g' as u8, 's' as u8, ':' as u8, '\n' as u8]
}

/// The document fragment `      position: { x: `.
#[verifier::opaque]
pub open spec fn txt_light_pos() -> Seq<u8> {
    seq![' ' as u8, ' ' as u8, ' ' as u8, ' ' as u8, ' ' as u8, ' ' as u8, 'p' as u8, 'o' as u8, 's' as u8, 'i' as u8, 't' as u8, 'i' as u8, 'o' as u8, 'n' as u8, ':' as u8, ' ' as u8, '{' as u8, ' ' as u8, 'x' as u8, ':' as u8, ' ' as u8]
}

/// The document fragment ` },\n`.
#[verifier::opaque]
pub open spec fn txt_close_map_comma() -> Seq<u8> {
    seq![' ' as u8, '}' as u8, ',' as u8, '\n' as u8]
}

/// The document fragment `      flags: [`.
#[verifier::opaque]
pub open spec fn txt_flags_open() -> Seq<u8> {
    seq![' ' as u8, ' ' as u8, ' ' as u8, ' ' as u8, ' ' as u8, ' ' as u8, 'f' as u8, 'l' as u8, 'a' as u8, 'g' as u8, 's' as u8, ':' as u8, ' ' as u8, '[' as u8]
}

/// The document fragment `, `.
#[verifier::opaque]
pub open spec fn txt_comma_sp() -> Seq<u8> {
    seq![',' as u8, ' ' as u8]
}

/// The document fragment `],\n`.
#[verifier::opaque]
pub open spec fn txt_flags_close() -> Seq<u8> {
    seq![']' as u8, ',' as u8, '\n' as u8]
}

/// The document fragment `      rgb: \"`.
#[verifier::opaque]
pub open spec fn txt_rgb_open() -> Seq<u8> {
    seq![' ' as u8, ' ' as u8, ' ' as u8, ' ' as u8, ' ' as u8, ' ' as u8, 'r' as u8, 'g' as u8, 'b' as u8, ':' as u8, ' ' as u8, '"' as u8]
}

/// The document fragment `\"\n    }\n`.
#[verifier::opaque]
pub open spec fn txt_rgb_close() -> Seq<u8> {
    seq!['"' as u8, '\n' as u8, ' ' as u8, ' ' as u8, ' ' as u8, ' ' as u8, '}' as u8, '\n' as u8]
}

fn lit_doc_type() -> (r: Vec<u8>)
    ensures
        r@ == txt_doc_type(),
{
    let mut v: Vec<u8> = Vec::new();
    v.push('t' as u8);
    v.push('y' as u8);
    v.push('p' as u8);
    v.push('e' as u8);
    v.push(':' as u8);
    v.push(' ' as u8);
    v.push('L' as u8);
    v.push('e' as u8);
    v.push('v' as u8);
    v.push('e' as u8);
    v.push('l' as u8);
    v.push('S' as u8);
    v.push('e' as u8);
    v.push('t' as u8);
    v.push('u' as u8);
    v.push('p' as u8);
    v.push('\n' as u8);
    proof {
        reveal(txt_doc_type);
    }
    assert(v@ =~= txt_doc_type());
    v
}

fn lit_voxels_hdr() -> (r: Vec<u8>)
    ensures
        r@ == txt_voxels_hdr(),
{
    let mut v: Vec<u8> = Vec::new();
    v.push('v' as u8);
    v.push('o' as u8);
    v.push('x' as u8);
    v.push('e' as u8);
    v.push('l' as u8);
    v.push('s' as u8);
    v.push(':' as u8);
    v.push('\n' as u8);
    proof {
        reveal(txt_voxels_hdr);
    }
    assert(v@ =~= txt_voxels_hdr());
    v
}

fn lit_start_pos() -> (r: Vec<u8>)
    ensures
        r@ == txt_start_pos(),
{
    let mut v: Vec<u8> = Vec::new();
    v.push(' ' as u8);
    v.push(' ' as u8);
    v.push('s' as u8);
    v.push('t' as u8);
    v.push('a' as u8);
    v.push('r' as u8);
    v.push('t' as u8);
    v.push('P' as u8);
    v.push('o' as u8);
    v.push('s' as u8);
    v.push('i' as u8);
    v.push('t' as u8);
    v.push('i' as u8);
    v.push('o' as u8);
    v.push('n' as u8);
    v.push(':' as u8);
    v.push(' ' as u8);
    v.push('{' as u8);
    v.push(' ' as u8);
    v.push('x' as u8);
    v.push(':' as u8);
    v.push(' ' as u8);
    proof {
        reveal(txt_start_pos);
    }
    assert(v@ =~= txt_start_pos());
    v
}

fn lit_end_pos() -> (r: Vec<u8>)
    ensures
        r@ == txt_end_pos(),
{
    let mut v: Vec<u8> = Vec::new();
    v.push(' ' as u8);
    v.push(' ' as u8);
    v.push('e' as u8);
    v.push('n' as u8);
    v.push('d' as u8);
    v.push('P' as u8);
    v.push('o' as u8);
    v.push('s' as u8);
    v.push('i' as u8);
    v.push('t' as u8);
    v.push('i' as u8);
    v.push('o' as u8);
    v.push('n' as u8);
    v.push(':' as u8);
    v.push(' ' as u8);
    v.push('{' as u8);
    v.push(' ' as u8);
    v.push('x' as u8);
    v.push(':' as u8);
    v.push(' ' as u8);
    proof {
        reveal(txt_end_pos);
    }
    assert(v@ =~= txt_end_pos());
    v
}

fn lit_comma_y() -> (r: Vec<u8>)
    ensures
        r@ == txt_comma_y(),
{
    let mut v: Vec<u8> = Vec::new();
    v.push(',' as u8);
    v.push(' ' as u8);
    v.push('y' as u8);
    v.push(':' as u8);
    v.push(' ' as u8);
    proof {
        reveal(txt_comma_y);
    }
    assert(v@ =~= txt_comma_y());
    v
}

fn lit_comma_z() -> (r: Vec<u8>)
    ensures
        r@ == txt_comma_z(),
{
    let mut v: Vec<u8> = Vec::new();
    v.push(',' as u8);
    v.push(' ' as u8);
    v.push('z' as u8);
    v.push(':' as u8);
    v.push(' ' as u8);
    proof {
        reveal(txt_comma_z);
    }
    assert(v@ =~= txt_comma_z());
    v
}

fn lit_close_map() -> (r: Vec<u8>)
    ensures
        r@ == txt_close_map(),
{
    let mut v: Vec<u8> = Vec::new();
    v.push(' ' as u8);
    v.push('}' as u8);
    v.push('\n' as u8);
    proof {
        reveal(txt_close_map);
    }
    assert(v@ =~= txt_close_map());
    v
}

fn lit_voxels_list() -> (r: Vec<u8>)
    ensures
        r@ == txt_voxels_list(),
{
    let mut v: Vec<u8> = Vec::new();
    v.push(' ' as u8);
    v.push(' ' as u8);
    v.push('v' as u8);
    v.push('o' as u8);
    v.push('x' as u8);
    v.push('e' as u8);
    v.push('l' as u8);
    v.push('s' as u8);
    v.push(':' as u8);
    v.push('\n' as u8);
    proof {
        reveal(txt_voxels_list);
    }
    assert(v@ =~= txt_voxels_list());
    v
}

fn lit_entry_open() -> (r: Vec<u8>)
    ensures
        r@ == txt_entry_open(),
{
    let mut v: Vec<u8> = Vec::new();
    v.push(' ' as u8);
    v.push(' ' as u8);
    v.push(' ' as u8);
    v.push(' ' as u8);
    v.push('-' as u8);
    v.push(' ' as u8);
    v.push('{' as u8);
    v.push('\n' as u8);
    proof {
        reveal(txt_entry_open);
    }
    assert(v@ =~= txt_entry_open());
    v
}

fn lit_objects_none() -> (r: Vec<u8>)
    ensures
        r@ == txt_objects_none(),
{
    let mut v: Vec<u8> = Vec::new();
    v.push(' ' as u8);
    v.push(' ' as u8);
    v.push(' ' as u8);
    v.push(' ' as u8);
    v.push(' ' as u8);
    v.push(' ' as u8);
    v.push('o' as u8);
    v.push('b' as u8);
    v.push('j' as u8);
    v.push('e' as u8);
    v.push('c' as u8);
    v.push('t' as u8);
    v.push('s' as u8);
    v.push(':' as u8);
    v.push(' ' as u8);
    v.push('[' as u8);
    v.push(']' as u8);
    v.push(',' as u8);
    v.push('\n' as u8);
    proof {
        reveal(txt_objects_none);
    }
    assert(v@ =~= txt_objects_none());
    v
}

fn lit_objects_open() -> (r: Vec<u8>)
    ensures
        r@ == txt_objects_open(),
{
    let mut v: Vec<u8> = Vec::new();
    v.push(' ' as u8);
    v.push(' ' as u8);
    v.push(' ' as u8);
    v.push(' ' as u8);
    v.push(' ' as u8);
    v.push(' ' as u8);
    v.push('o' as u8);
    v.push('b' as u8);
    v.push('j' as u8);
    v.push('e' as u8);
    v.push('c' as u8);
    v.push('t' as u8);
    v.push('s' as u8);
    v.push(':' as u8);
    v.push(' ' as u8);
    v.push('[' as u8);
    v.push('\n' as u8);
    proof {
        reveal(txt_objects_open);
    }
    assert(v@ =~= txt_objects_open());
    v
}

fn lit_item_indent() -> (r: Vec<u8>)
    ensures
        r@ == txt_item_indent(),
{
    let mut v: Vec<u8> = Vec::new();
    v.push(' ' as u8);
    v.push(' ' as u8);
    v.push(' ' as u8);
    v.push(' ' as u8);
    v.push(' ' as u8);
    v.push(' ' as u8);
    v.push(' ' as u8);
    v.push(' ' as u8);
    proof {
        reveal(txt_item_indent);
    }
    assert(v@ =~= txt_item_indent());
    v
}

fn lit_item_end() -> (r: Vec<u8>)
    ensures
        r@ == txt_item_end(),
{
    let mut v: Vec<u8> = Vec::new();
    v.push(',' as u8);
    v.push('\n' as u8);
    proof {
        reveal(txt_item_end);
    }
    assert(v@ =~= txt_item_end());
    v
}

fn lit_objects_close() -> (r: Vec<u8>)
    ensures
        r@ == txt_objects_close(),
{
    let mut v: Vec<u8> = Vec::new();
    v.push(' ' as u8);
    v.push(' ' as u8);
    v.push(' ' as u8);
    v.push(' ' as u8);
    v.push(' ' as u8);
    v.push(' ' as u8);
    v.push(']' as u8);
    v.push(',' as u8);
    v.push('\n' as u8);
    proof {
        reveal(txt_objects_close);
    }
    assert(v@ =~= txt_objects_close());
    v
}

fn lit_props_none() -> (r: Vec<u8>)
    ensures
        r@ == txt_props_none(),
{
    let mut v: Vec<u8> = Vec::new();
    v.push(' ' as u8);
    v.push(' ' as u8);
    v.push(' ' as u8);
    v.push(' ' as u8);
    v.push(' ' as u8);
    v.push(' ' as u8);
    v.push('p' as u8);
    v.push('r' as u8);
    v.push('o' as u8);
    v.push('p' as u8);
    v.push('s' as u8);
    v.push(':' as u8);
    v.push(' ' as u8);
    v.push('[' as u8);
    v.push(']' as u8);
    v.push('\n' as u8);
    proof {
        reveal(txt_props_none);
    }
    assert(v@ =~= txt_props_none());
    v
}

fn lit_props_open() -> (r: Vec<u8>)
    ensures
        r@ == txt_props_open(),
{
    let mut v: Vec<u8> = Vec::new();
    v.push(' ' as u8);
    v.push(' ' as u8);
    v.push(' ' as u8);
    v.push(' ' as u8);
    v.push(' ' as u8);
    v.push(' ' as u8);
    v.push('p' as u8);
    v.push('r' as u8);
    v.push('o' as u8);
    v.push('p' as u8);
    v.push('s' as u8);
    v.push(':' as u8);
    v.push(' ' as u8);
    v.push('[' as u8);
    v.push('\n' as u8);
    proof {
        reveal(txt_props_open);
    }
    assert(v@ =~= txt_props_open());
    v
}

fn lit_props_close() -> (r: Vec<u8>)
    ensures
        r@ == txt_props_close(),
{
    let mut v: Vec<u8> = Vec::new();
    v.push(' ' as u8);
    v.push(' ' as u8);
    v.push(' ' as u8);
    v.push(' ' as u8);
    v.push(' ' as u8);
    v.push(' ' as u8);
    v.push(']' as u8);
    v.push('\n' as u8);
    proof {
        reveal(txt_props_close);
    }
    assert(v@ =~= txt_props_close());
    v
}

fn lit_entry_close() -> (r: Vec<u8>)
    ensures
        r@ == txt_entry_close(),
{
    let mut v: Vec<u8> = Vec::new();
    v.push(' ' as u8);
    v.push(' ' as u8);
    v.push(' ' as u8);
    v.push(' ' as u8);
    v.push('}' as u8);
    v.push('\n' as u8);
    proof {
        reveal(txt_entry_close);
    }
    assert(v@ =~= txt_entry_close());
    v
}

fn lit_cameras_none() -> (r: Vec<u8>)
    ensures
        r@ == txt_cameras_none(),
{
    let mut v: Vec<u8> = Vec::new();
    v.push('c' as u8);
    v.push('a' as u8);
    v.push('m' as u8);
    v.push('e' as u8);
    v.push('r' as u8);
    v.push('a' as u8);
    v.push('s' as u8);
    v.push(':' as u8);
    v.push(' ' as u8);
    v.push('[' as u8);
    v.push(']' as u8);
    v.push('\n' as u8);
    proof {
        reveal(txt_cameras_none);
    }
    assert(v@ =~= txt_cameras_none());
    v
}

fn lit_cameras_hdr() -> (r: Vec<u8>)
    ensures
        r@ == txt_cameras_hdr(),
{
    let mut v: Vec<u8> = Vec::new();
    v.push('c' as u8);
    v.push('a' as u8);
    v.push('m' as u8);
    v.push('e' as u8);
    v.push('r' as u8);
    v.push('a' as u8);
    v.push('s' as u8);
    v.push(':' as u8);
    v.push('\n' as u8);
    proof {
        reveal(txt_cameras_hdr);
    }
    assert(v@ =~= txt_cameras_hdr());
    v
}

fn lit_camera_entry() -> (r: Vec<u8>)
    ensures
        r@ == txt_camera_entry(),
{
    let mut v: Vec<u8> = Vec::new();
    v.push(' ' as u8);
    v.push(' ' as u8);
    v.push('-' as u8);
    v.push('\n' as u8);
    v.push(' ' as u8);
    v.push(' ' as u8);
    v.push(' ' as u8);
    v.push(' ' as u8);
    v.push('i' as u8);
    v.push('n' as u8);
    v.push('d' as u8);
    v.push('e' as u8);
    v.push('x' as u8);
    v.push(':' as u8);
    v.push(' ' as u8);
    proof {
        reveal(txt_camera_entry);
    }
    assert(v@ =~= txt_camera_entry());
    v
}

fn lit_camera_type() -> (r: Vec<u8>)
    ensures
        r@ == txt_camera_type(),
{
    let mut v: Vec<u8> = Vec::new();
    v.push('\n' as u8);
    v.push(' ' as u8);
    v.push(' ' as u8);
    v.push(' ' as u8);
    v.push(' ' as u8);
    v.push('t' as u8);
    v.push('y' as u8);
    v.push('p' as u8);
    v.push('e' as u8);
    v.push(':' as u8);
    v.push(' ' as u8);
    proof {
        reveal(txt_camera_type);
    }
    assert(v@ =~= txt_camera_type());
    v
}

fn lit_newline() -> (r: Vec<u8>)
    ensures
        r@ == txt_newline(),
{
    let mut v: Vec<u8> = Vec::new();
    v.push('\n' as u8);
    proof {
        reveal(txt_newline);
    }
    assert(v@ =~= txt_newline());
    v
}

fn lit_sections_none() -> (r: Vec<u8>)
    ensures
        r@ == txt_sections_none(),
{
    let mut v: Vec<u8> = Vec::new();
    v.push(' ' as u8);
    v.push(' ' as u8);
    v.push(' ' as u8);
    v.push(' ' as u8);
    v.push('s' as u8);
    v.push('e' as u8);
    v.push('c' as u8);
    v.push('t' as u8);
    v.push('i' as u8);
    v.push('o' as u8);
    v.push('n' as u8);
    v.push('s' as u8);
    v.push(':' as u8);
    v.push(' ' as u8);
    v.push('[' as u8);
    v.push(']' as u8);
    v.push('\n' as u8);
    proof {
        reveal(txt_sections_none);
    }
    assert(v@ =~= txt_sections_none());
    v
}

fn lit_sections_hdr() -> (r: Vec<u8>)
    ensures
        r@ == txt_sections_hdr(),
{
    let mut v: Vec<u8> = Vec::new();
    v.push(' ' as u8);
    v.push(' ' as u8);
    v.push(' ' as u8);
    v.push(' ' as u8);
    v.push('s' as u8);
    v.push('e' as u8);
    v.push('c' as u8);
    v.push('t' as u8);
    v.push('i' as u8);
    v.push('o' as u8);
    v.push('n' as u8);
    v.push('s' as u8);
    v.push(':' as u8);
    v.push('\n' as u8);
    proof {
        reveal(txt_sections_hdr);
    }
    assert(v@ =~= txt_sections_hdr());
    v
}

fn lit_section_entry() -> (r: Vec<u8>)
    ensures
        r@ == txt_section_entry(),
{
    let mut v: Vec<u8> = Vec::new();
    v.push(' ' as u8);
    v.push(' ' as u8);
    v.push(' ' as u8);
    v.push(' ' as u8);
    v.push(' ' as u8);
    v.push(' ' as u8);
    v.push('-' as u8);
    v.push(' ' as u8);
    v.push('{' as u8);
    v.push(' ' as u8);
    v.push('s' as u8);
    v.push('e' as u8);
    v.push('c' as u8);
    v.push('t' as u8);
    v.push('i' as u8);
    v.push('o' as u8);
    v.push('n' as u8);
    v.push(':' as u8);
    v.push(' ' as u8);
    proof {
        reveal(txt_section_entry);
    }
    assert(v@ =~= txt_section_entry());
    v
}

fn lit_section_bytes() -> (r: Vec<u8>)
    ensures
        r@ == txt_section_bytes(),
{
    let mut v: Vec<u8> = Vec::new();
    v.push(',' as u8);
    v.push(' ' as u8);
    v.push('b' as u8);
    v.push('y' as u8);
    v.push('t' as u8);
    v.push('e' as u8);
    v.push('s' as u8);
    v.push(':' as u8);
    v.push(' ' as u8);
    proof {
        reveal(txt_section_bytes);
    }
    assert(v@ =~= txt_section_bytes());
    v
}

fn lit_lightings_none() -> (r: Vec<u8>)
    ensures
        r@ == txt_lightings_none(),
{
    let mut v: Vec<u8> = Vec::new();
    v.push('l' as u8);
    v.push('i' as u8);
    v.push('g' as u8);
    v.push('h' as u8);
    v.push('t' as u8);
    v.push('i' as u8);
    v.push('n' as u8);
    v.push('g' as u8);
    v.push('s' as u8);
    v.push(':' as u8);
    v.push(' ' as u8);
    v.push('[' as u8);
    v.push(']' as u8);
    v.push('\n' as u8);
    proof {
        reveal(txt_lightings_none);
    }
    assert(v@ =~= txt_lightings_none());
    v
}

fn lit_lightings_hdr() -> (r: Vec<u8>)
    ensures
        r@ == txt_lightings_hdr(),
{
    let mut v: Vec<u8> = Vec::new();
    v.push('l' as u8);
    v.push('i' as u8);
    v.push('g' as u8);
    v.push('h' as u8);
    v.push('t' as u8);
    v.push('i' as u8);
    v.push('n' as u8);
    v.push('g' as u8);
    v.push('s' as u8);
    v.push(':' as u8);
    v.push('\n' as u8);
    proof {
        reveal(txt_lightings_hdr);
    }
    assert(v@ =~= txt_lightings_hdr());
    v
}

fn lit_light_pos() -> (r: Vec<u8>)
    ensures
        r@ == txt_light_pos(),
{
    let mut v: Vec<u8> = Vec::new();
    v.push(' ' as u8);
    v.push(' ' as u8);
    v.push(' ' as u8);
    v.push(' ' as u8);
    v.push(' ' as u8);
    v.push(' ' as u8);
    v.push('p' as u8);
    v.push('o' as u8);
    v.push('s' as u8);
    v.push('i' as u8);
    v.push('t' as u8);
    v.push('i' as u8);
    v.push('o' as u8);
    v.push('n' as u8);
    v.push(':' as u8);
    v.push(' ' as u8);
    v.push('{' as u8);
    v.push(' ' as u8);
    v.push('x' as u8);
    v.push(':' as u8);
    v.push(' ' as u8);
    proof {
        reveal(txt_light_pos);
    }
    assert(v@ =~= txt_light_pos());
    v
}

fn lit_close_map_comma() -> (r: Vec<u8>)
    ensures
        r@ == txt_close_map_comma(),
{
    let mut v: Vec<u8> = Vec::new();
    v.push(' ' as u8);
    v.push('}' as u8);
    v.push(',' as u8);
    v.push('\n' as u8);
    proof {
        reveal(txt_close_map_comma);
    }
    assert(v@ =~= txt_close_map_comma());
    v
}

fn lit_flags_open() -> (r: Vec<u8>)
    ensures
        r@ == txt_flags_open(),
{
    let mut v: Vec<u8> = Vec::new();
    v.push(' ' as u8);
    v.push(' ' as u8);
    v.push(' ' as u8);
    v.push(' ' as u8);
    v.push(' ' as u8);
    v.push(' ' as u8);
    v.push('f' as u8);
    v.push('l' as u8);
    v.push('a' as u8);
    v.push('g' as u8);
    v.push('s' as u8);
    v.push(':' as u8);
    v.push(' ' as u8);
    v.push('[' as u8);
    proof {
        reveal(txt_flags_open);
    }
    assert(v@ =~= txt_flags_open());
    v
}

fn lit_comma_sp() -> (r: Vec<u8>)
    ensures
        r@ == txt_comma_sp(),
{
    let mut v: Vec<u8> = Vec::new();
    v.push(',' as u8);
    v.push(' ' as u8);
    proof {
        reveal(txt_comma_sp);
    }
    assert(v@ =~= txt_comma_sp());
    v
}

fn lit_flags_close() -> (r: Vec<u8>)
    ensures
        r@ == txt_flags_close(),
{
    let mut v: Vec<u8> = Vec::new();
    v.push(']' as u8);
    v.push(',' as u8);
    v.push('\n' as u8);
    proof {
        reveal(txt_flags_close);
    }
    assert(v@ =~= txt_flags_close());
    v
}

fn lit_rgb_open() -> (r: Vec<u8>)
    ensures
        r@ == txt_rgb_open(),
{
    let mut v: Vec<u8> = Vec::new();
    v.push(' ' as u8);
    v.push(' ' as u8);
    v.push(' ' as u8);
    v.push(' ' as u8);
    v.push(' ' as u8);
    v.push(' ' as u8);
    v.push('r' as u8);
    v.push('g' as u8);
    v.push('b' as u8);
    v.push(':' as u8);
    v.push(' ' as u8);
    v.push('"' as u8);
    proof {
        reveal(txt_rgb_open);
    }
    assert(v@ =~= txt_rgb_open());
    v
}

fn lit_rgb_close() -> (r: Vec<u8>)
    ensures
        r@ == txt_rgb_close(),
{
    let mut v: Vec<u8> = Vec::new();
    v.push('"' as u8);
    v.push('\n' as u8);
    v.push(' ' as u8);
    v.push(' ' as u8);
    v.push(' ' as u8);
    v.push(' ' as u8);
    v.push('}' as u8);
    v.push('\n' as u8);
    proof {
        reveal(txt_rgb_close);
    }
    assert(v@ =~= txt_rgb_close());
    v
}


/// The lengths of every document fragment.
pub proof fn lemma_lit_lens()
    ensures
        txt_doc_type().len() == 17,
        txt_voxels_hdr().len() == 8,
        txt_start_pos().len() == 22,
        txt_end_pos().len() == 20,
        txt_comma_y().len() == 5,
        txt_comma_z().len() == 5,
        txt_close_map().len() == 3,
        txt_voxels_list().len() == 10,
        txt_entry_open().len() == 8,
        txt_objects_none().len() == 19,
        txt_objects_open().len() == 17,
        txt_item_indent().len() == 8,
        txt_item_end().len() == 2,
        txt_objects_close().len() == 9,
        txt_props_none().len() == 16,
        txt_props_open().len() == 15,
        txt_props_close().len() == 8,
        txt_entry_close().len() == 6,
        txt_cameras_none().len() == 12,
        txt_cameras_hdr().len() == 9,
        txt_camera_entry().len() == 15,
        txt_camera_type().len() == 11,
        txt_newline().len() == 1,
        txt_sections_none().len() == 17,
        txt_sections_hdr().len() == 14,
        txt_section_entry().len() == 19,
        txt_section_bytes().len() == 9,
        txt_lightings_none().len() == 14,
        txt_lightings_hdr().len() == 11,
        txt_light_pos().len() == 21,
        txt_close_map_comma().len() == 4,
        txt_flags_open().len() == 14,
        txt_comma_sp().len() == 2,
        txt_flags_close().len() == 3,
        txt_rgb_open().len() == 12,
        txt_rgb_close().len() == 8,
{
    reveal(txt_doc_type);
    reveal(txt_voxels_hdr);
    reveal(txt_start_pos);
    reveal(txt_end_pos);
    reveal(txt_comma_y);
    reveal(txt_comma_z);
    reveal(txt_close_map);
    reveal(txt_voxels_list);
    reveal(txt_entry_open);
    reveal(txt_objects_none);
    reveal(txt_objects_open);
    reveal(txt_item_indent);
    reveal(txt_item_end);
    reveal(txt_objects_close);
    reveal(txt_props_none);
    reveal(txt_props_open);
    reveal(txt_props_close);
    reveal(txt_entry_close);
    reveal(txt_cameras_none);
    reveal(txt_cameras_hdr);
    reveal(txt_camera_entry);
    reveal(txt_camera_type);
    reveal(txt_newline);
    reveal(txt_sections_none);
    reveal(txt_sections_hdr);
    reveal(txt_section_entry);
    reveal(txt_section_bytes);
    reveal(txt_lightings_none);
    reveal(txt_lightings_hdr);
    reveal(txt_light_pos);
    reveal(txt_close_map_comma);
    reveal(txt_flags_open);
    reveal(txt_comma_sp);
    reveal(txt_flags_close);
    reveal(txt_rgb_open);
    reveal(txt_rgb_close);
}

// ---------------------------------------------------------------------
// Generic fragment helpers
// ---------------------------------------------------------------------

/// Consume the fragment `l` at position `i` of `b`, or nothing.
pub open spec fn eat_lit_s(b: Seq<u8>, i: int, l: Seq<u8>) -> Option<int> {
    if 0 <= i && i + l.len() <= b.len() && b.subrange(i, i + l.len()) == l {
        Some(i + l.len())
    } else {
        None
    }
}

/// Append every byte of `src` to `out`.
fn push_text(out: &mut Vec<u8>, src: &Vec<u8>)
    ensures
        final(out)@ == old(out)@ + src@,
{
    let mut i: usize = 0;
    while i < src.len()
        invariant
            i <= src@.len(),
            out@ =~= old(out)@ + src@.take(i as int),
        decreases src@.len() - i,
    {
        out.push(src[i]);
        i = i + 1;
        assert(src@.take(i as int) =~= src@.take(i as int - 1).push(src@[i as int - 1]));
        assert(out@ =~= old(out)@ + src@.take(i as int));
    }
    assert(src@.take(src@.len() as int) =~= src@);
}

/// Match the fragment `l` at position `i` of `b`; on success the
/// position after it.
#[verifier::loop_isolation(false)]
fn eat_lit(b: &[u8], i: usize, l: &Vec<u8>) -> (r: Option<usize>)
    ensures
        match r {
            Some(j) => eat_lit_s(b@, i as int, l@) == Some(j as int),
            None => eat_lit_s(b@, i as int, l@) is None,
        },
{
    if i > b.len() || b.len() - i < l.len() {
        return None;
    }
    let mut k: usize = 0;
    while k < l.len()
        invariant
            k <= l@.len(),
            i + l@.len() <= b@.len(),
            forall|t: int| 0 <= t < k ==> b@[i + t] == l@[t],
        decreases l@.len() - k,
    {
        if b[i + k] != l[k] {
            proof {
                assert(b@.subrange(i as int, i + l@.len())[k as int] != l@[k as int]);
            }
            return None;
        }
        k = k + 1;
    }
    proof {
        assert(b@.subrange(i as int, i + l@.len()) =~= l@);
    }
    Some(i + l.len())
}

// ---------------------------------------------------------------------
// Decimal integers
// ---------------------------------------------------------------------

/// The decimal digits of `n`, most significant first.
pub open spec fn dec_digits(n: nat) -> Seq<u8>
    decreases n,
{
    if n < 10 {
        seq![(0x30 + n) as u8]
    } else {
        dec_digits(n / 10).push((0x30 + n % 10) as u8)
    }
}

/// The decimal text of a signed value: a minus sign where needed, then
/// the digits of the magnitude.
pub open spec fn int_text(v: int) -> Seq<u8> {
    if v < 0 {
        seq![0x2Du8] + dec_digits((-v) as nat)
    } else {
        dec_digits(v as nat)
    }
}

/// Whether `c` is a decimal digit.
pub open spec fn is_digit(c: u8) -> bool {
    0x30 <= c <= 0x39
}

/// Scan a run of decimal digits left to right, accumulating their
/// value; values beyond 32 bits are refused.
pub open spec fn scan_digits(b: Seq<u8>, i: int, acc: nat) -> Option<(nat, int)>
    decreases b.len() - i,
{
    if 0 <= i < b.len() && is_digit(b[i]) {
        if acc * 10 + (b[i] - 0x30) > 0xFFFFFFFF {
            None
        } else {
            scan_digits(b, i + 1, (acc * 10 + (b[i] - 0x30)) as nat)
        }
    } else {
        Some((acc, i))
    }
}

/// Parse an unsigned decimal integer: at least one digit.
pub open spec fn p_uint(b: Seq<u8>, i: int) -> Option<(nat, int)> {
    if 0 <= i < b.len() && is_digit(b[i]) {
        scan_digits(b, i, 0)
    } else {
        None
    }
}

/// Parse a signed decimal integer.
pub open spec fn p_int(b: Seq<u8>, i: int) -> Option<(int, int)> {
    if 0 <= i < b.len() && b[i] == 0x2D {
        match p_uint(b, i + 1) {
            Some((n, j)) => Some((-(n as int), j)),
            None => None,
        }
    } else {
        match p_uint(b, i) {
            Some((n, j)) => Some((n as int, j)),
            None => None,
        }
    }
}

/// Append the decimal digits of `n`.
fn push_uint(out: &mut Vec<u8>, n: u32)
    ensures
        final(out)@ == old(out)@ + dec_digits(n as nat),
    decreases n,
{
    if n < 10 {
        out.push(0x30 + (n as u8));
        assert(out@ =~= old(out)@ + dec_digits(n as nat));
    } else {
        push_uint(out, n / 10);
        out.push(0x30 + ((n % 10) as u8));
        assert(out@ =~= old(out)@ + dec_digits(n as nat));
    }
}

/// Append the decimal text of `v`.
fn push_int(out: &mut Vec<u8>, v: i64)
    requires
        -0x80000000i64 <= v <= 0xFFFFFFFFi64,
    ensures
        final(out)@ == old(out)@ + int_text(v as int),
{
    if v < 0 {
        out.push(0x2D);
        push_uint(out, (-v) as u32);
        assert(out@ =~= old(out)@ + int_text(v as int));
    } else {
        push_uint(out, v as u32);
    }
}

/// Parse an unsigned decimal integer.
#[verifier::loop_isolation(false)]
fn parse_uint(b: &[u8], i: usize) -> (r: Option<(u32, usize)>)
    ensures
        match r {
            Some((n, j)) => p_uint(b@, i as int) == Some((n as nat, j as int)),
            None => p_uint(b@, i as int) is None,
        },
{
    if i >= b.len() || b[i] < 0x30 || b[i] > 0x39 {
        return None;
    }
    let mut acc: u64 = 0;
    let mut j: usize = i;
    loop
        invariant
            i <= j <= b@.len(),
            acc <= 0xFFFFFFFFu64,
            scan_digits(b@, i as int, 0) == scan_digits(b@, j as int, acc as nat),
        decreases b@.len() - j,
    {
        if j < b.len() {
            let c = b[j];
            if 0x30 <= c && c <= 0x39 {
                let next: u64 = acc * 10 + ((c - 0x30) as u64);
                if next > 0xFFFFFFFFu64 {
                    proof {
                        assert(scan_digits(b@, j as int, acc as nat) is None);
                    }
                    return None;
                }
                acc = next;
                j = j + 1;
            } else {
                proof {
                    assert(scan_digits(b@, j as int, acc as nat) == Some((acc as nat, j as int)));
                }
                return Some((acc as u32, j));
            }
        } else {
            proof {
                assert(scan_digits(b@, j as int, acc as nat) == Some((acc as nat, j as int)));
            }
            return Some((acc as u32, j));
        }
    }
}

/// Parse a signed decimal integer.
fn parse_int(b: &[u8], i: usize) -> (r: Option<(i64, usize)>)
    ensures
        match r {
            Some((v, j)) => p_int(b@, i as int) == Some((v as int, j as int)),
            None => p_int(b@, i as int) is None,
        },
{
    if i < b.len() && b[i] == 0x2D {
        match parse_uint(b, i + 1) {
            Some((n, j)) => Some((-(n as i64), j)),
            None => None,
        }
    } else {
        match parse_uint(b, i) {
            Some((n, j)) => Some((n as i64, j)),
            None => None,
        }
    }
}

// ---------------------------------------------------------------------
// Hexadecimal bytes and byte-array literals
// ---------------------------------------------------------------------

/// The uppercase hexadecimal digit of `d`.
pub open spec fn hexd(d: int) -> u8 {
    if d < 10 {
        (0x30 + d) as u8
    } else {
        (0x41 + d - 10) as u8
    }
}

/// The text `0xHH` of one byte.
pub open spec fn hex_byte(v: u8) -> Seq<u8> {
    seq![0x30u8, 0x78u8, hexd(v as int / 16), hexd(v as int % 16)]
}

/// The value of one hexadecimal digit character, if it is one.
pub open spec fn hexval(c: u8) -> Option<int> {
    if 0x30 <= c <= 0x39 {
        Some(c - 0x30)
    } else if 0x41 <= c <= 0x46 {
        Some(c - 0x41 + 10)
    } else {
        None
    }
}

/// Parse the text `0xHH` of one byte.
pub open spec fn p_hex_byte(b: Seq<u8>, i: int) -> Option<(u8, int)> {
    if 0 <= i && i + 4 <= b.len() && b[i] == 0x30 && b[i + 1] == 0x78 {
        match (hexval(b[i + 2]), hexval(b[i + 3])) {
            (Some(hi), Some(lo)) => Some(((hi * 16 + lo) as u8, i + 4)),
            _ => None,
        }
    } else {
        None
    }
}

/// The items after the first, each preceded by a comma separator.
pub open spec fn sep_items_text(s: Seq<u8>) -> Seq<u8>
    decreases s.len(),
{
    if s.len() == 0 {
        Seq::empty()
    } else {
        seq![0x2Cu8, 0x20u8] + hex_byte(s[0]) + sep_items_text(s.drop_first())
    }
}

/// The byte-array literal `[0x.., 0x..]` of a record; an empty record
/// is `[]`.
pub open spec fn bytes_items_text(s: Seq<u8>) -> Seq<u8> {
    if s.len() == 0 {
        Seq::empty()
    } else {
        hex_byte(s[0]) + sep_items_text(s.drop_first())
    }
}

/// The full byte-array literal with its brackets.
pub open spec fn bytes_text(s: Seq<u8>) -> Seq<u8> {
    seq![0x5Bu8] + bytes_items_text(s) + seq![0x5Du8]
}

/// Parse the items of a byte-array literal up to the closing bracket.
pub open spec fn p_bytes_items(b: Seq<u8>, i: int, acc: Seq<u8>) -> Option<(Seq<u8>, int)>
    decreases b.len() - i,
{
    if !(0 <= i < b.len()) {
        None
    } else if b[i] == 0x5D {
        Some((acc, i + 1))
    } else {
        match p_hex_byte(b, i) {
            Some((v, j)) => if j < b.len() && b[j] == 0x5D {
                Some((acc.push(v), j + 1))
            } else if j + 2 <= b.len() && b[j] == 0x2C && b[j + 1] == 0x20 {
                p_bytes_items(b, j + 2, acc.push(v))
            } else {
                None
            },
            None => None,
        }
    }
}

/// Parse a full byte-array literal.
pub open spec fn p_bytes(b: Seq<u8>, i: int) -> Option<(Seq<u8>, int)> {
    if 0 <= i < b.len() && b[i] == 0x5B {
        p_bytes_items(b, i + 1, Seq::empty())
    } else {
        None
    }
}

/// Append the text `0xHH` of one byte.
fn push_hex_byte(out: &mut Vec<u8>, v: u8)
    ensures
        final(out)@ == old(out)@ + hex_byte(v),
{
    out.push(0x30);
    out.push(0x78);
    let hi = v / 16;
    let lo = v % 16;
    out.push(
        if hi < 10 {
            0x30 + hi
        } else {
            0x41 + hi - 10
        },
    );
    out.push(
        if lo < 10 {
            0x30 + lo
        } else {
            0x41 + lo - 10
        },
    );
    assert(out@ =~= old(out)@ + hex_byte(v));
}

/// Append a record as a byte-array literal.
#[verifier::loop_isolation(false)]
fn push_bytes_text(out: &mut Vec<u8>, s: &Vec<u8>)
    ensures
        final(out)@ == old(out)@ + bytes_text(s@),
{
    out.push(0x5B);
    if s.len() > 0 {
        push_hex_byte(out, s[0]);
        let ghost base2 = out@;
        let mut i: usize = 1;
        proof {
            assert(s@.skip(1).skip(0) =~= s@.skip(1));
            assert(Seq::<u8>::empty() + sep_items_text(s@.skip(1)) =~= sep_items_text(s@.skip(1)));
        }
        while i < s.len()
            invariant
                1 <= i <= s@.len(),
                base2 + sep_items_text(s@.skip(1)) =~= out@ + sep_items_text(s@.skip(i as int)),
            decreases s@.len() - i,
        {
            let ghost ob = out@;
            let ghost i0 = i as int;
            out.push(0x2C);
            out.push(0x20);
            push_hex_byte(out, s[i]);
            proof {
                assert(s@.skip(i0)[0] == s@[i0]);
                assert(s@.skip(i0).drop_first() =~= s@.skip(i0 + 1));
                assert(sep_items_text(s@.skip(i0)) == seq![0x2Cu8, 0x20u8] + hex_byte(s@[i0])
                    + sep_items_text(s@.skip(i0 + 1)));
                assert(out@ =~= ob + (seq![0x2Cu8, 0x20u8] + hex_byte(s@[i0])));
                assert(ob + (seq![0x2Cu8, 0x20u8] + hex_byte(s@[i0]) + sep_items_text(
                    s@.skip(i0 + 1),
                )) =~= (ob + (seq![0x2Cu8, 0x20u8] + hex_byte(s@[i0]))) + sep_items_text(
                    s@.skip(i0 + 1),
                ));
                assert(base2 + sep_items_text(s@.skip(1)) =~= out@ + sep_items_text(
                    s@.skip(i0 + 1),
                ));
            }
            i = i + 1;
        }
        proof {
            assert(s@.skip(s@.len() as int) =~= Seq::<u8>::empty());
            assert(sep_items_text(Seq::<u8>::empty()) == Seq::<u8>::empty());
            assert(out@ + Seq::<u8>::empty() =~= out@);
            assert(out@ =~= base2 + sep_items_text(s@.skip(1)));
        }
    }
    out.push(0x5D);
    proof {
        if s@.len() == 0 {
            assert(bytes_items_text(s@) == Seq::<u8>::empty());
        } else {
            assert(s@.skip(1) =~= s@.drop_first());
        }
        assert(out@ =~= old(out)@ + bytes_text(s@));
    }
}

/// Parse the text `0xHH` of one byte.
fn parse_hex_byte(b: &[u8], i: usize) -> (r: Option<(u8, usize)>)
    ensures
        match r {
            Some((v, j)) => p_hex_byte(b@, i as int) == Some((v, j as int)),
            None => p_hex_byte(b@, i as int) is None,
        },
{
    if i > b.len() || b.len() - i < 4 {
        return None;
    }
    if b[i] != 0x30 || b[i + 1] != 0x78 {
        return None;
    }
    let c2 = b[i + 2];
    let c3 = b[i + 3];
    let hi: u8 = if 0x30 <= c2 && c2 <= 0x39 {
        c2 - 0x30
    } else if 0x41 <= c2 && c2 <= 0x46 {
        c2 - 0x41 + 10
    } else {
        return None;
    };
    let lo: u8 = if 0x30 <= c3 && c3 <= 0x39 {
        c3 - 0x30
    } else if 0x41 <= c3 && c3 <= 0x46 {
        c3 - 0x41 + 10
    } else {
        return None;
    };
    Some((hi * 16 + lo, i + 4))
}

/// Parse a full byte-array literal.
#[verifier::loop_isolation(false)]
fn parse_bytes_list(b: &[u8], i: usize) -> (r: Option<(Vec<u8>, usize)>)
    ensures
        match r {
            Some((v, j)) => p_bytes(b@, i as int) == Some((v@, j as int)),
            None => p_bytes(b@, i as int) is None,
        },
{
    if i >= b.len() || b[i] != 0x5B {
        return None;
    }
    let mut acc: Vec<u8> = Vec::new();
    let mut j: usize = i + 1;
    loop
        invariant
            i + 1 <= j,
            j <= usize::MAX,
            p_bytes_items(b@, i as int + 1, Seq::empty()) == p_bytes_items(b@, j as int, acc@),
        decreases b@.len() - j,
    {
        if j >= b.len() {
            proof {
                assert(p_bytes_items(b@, j as int, acc@) is None);
            }
            return None;
        }
        if b[j] == 0x5D {
            proof {
                assert(p_bytes_items(b@, j as int, acc@) == Some((acc@, j + 1)));
            }
            return Some((acc, j + 1));
        }
        let ghost jpre = j as int;
        let ghost apre = acc@;
        match parse_hex_byte(b, j) {
            Some((v, j2)) => {
                acc.push(v);
                if j2 < b.len() && b[j2] == 0x5D {
                    proof {
                        assert(p_bytes_items(b@, jpre, apre) == Some((apre.push(v), j2 + 1)));
                    }
                    return Some((acc, j2 + 1));
                }
                if j2 < b.len() && j2 + 1 < b.len() && b[j2] == 0x2C && b[j2 + 1] == 0x20 {
                    j = j2 + 2;
                    proof {
                        assert(p_bytes_items(b@, jpre, apre) == p_bytes_items(
                            b@,
                            j as int,
                            acc@,
                        ));
                    }
                } else {
                    proof {
                        assert(p_bytes_items(b@, jpre, apre) is None);
                    }
                    return None;
                }
            },
            None => {
                proof {
                    assert(p_bytes_items(b@, jpre, apre) is None);
                }
                return None;
            },
        }
    }
}

// ---------------------------------------------------------------------
// The document writer
// ---------------------------------------------------------------------

/// The two hex digits of one byte, without a prefix.
pub open spec fn hex2(v: u8) -> Seq<u8> {
    seq![hexd(v as int / 16), hexd(v as int % 16)]
}

/// The text of one object slot: its record's byte-array literal, or
/// `[]` for a declared-but-empty slot.
pub open spec fn obj_slot_text(o: Option<Seq<u8>>) -> Seq<u8> {
    match o {
        Some(b) => bytes_text(b),
        None => bytes_text(Seq::empty()),
    }
}

/// The object items of one voxel, one indented line each.
pub open spec fn emit_obj_items(s: Seq<Option<Seq<u8>>>) -> Seq<u8>
    decreases s.len(),
{
    if s.len() == 0 {
        Seq::empty()
    } else {
        txt_item_indent() + obj_slot_text(s[0]) + txt_item_end() + emit_obj_items(s.drop_first())
    }
}

/// The prop items of one voxel, one indented line each.
pub open spec fn emit_prop_items(s: Seq<Seq<u8>>) -> Seq<u8>
    decreases s.len(),
{
    if s.len() == 0 {
        Seq::empty()
    } else {
        txt_item_indent() + bytes_text(s[0]) + txt_item_end() + emit_prop_items(s.drop_first())
    }
}

/// The document entry of one voxel.
pub open spec fn emit_voxel_text(v: VoxelV) -> Seq<u8> {
    txt_entry_open() + (if v.objects.len() == 0 {
        txt_objects_none()
    } else {
        txt_objects_open() + emit_obj_items(v.objects) + txt_objects_close()
    }) + (if v.props.len() == 0 {
        txt_props_none()
    } else {
        txt_props_open() + emit_prop_items(v.props) + txt_props_close()
    }) + txt_entry_close()
}

/// The voxel entries, in lattice order.
pub open spec fn emit_voxel_items(s: Seq<VoxelV>) -> Seq<u8>
    decreases s.len(),
{
    if s.len() == 0 {
        Seq::empty()
    } else {
        emit_voxel_text(s[0]) + emit_voxel_items(s.drop_first())
    }
}

/// The head of the `voxels:` mapping: the header and the two lattice
/// corner triples.
pub open spec fn emit_voxels_prefix(vl: VoxelListV) -> Seq<u8> {
    txt_voxels_hdr() + txt_start_pos() + int_text(vl.start_position.x as int) + txt_comma_y()
        + int_text(vl.start_position.y as int) + txt_comma_z() + int_text(
        vl.start_position.z as int,
    ) + txt_close_map() + txt_end_pos() + int_text(vl.end_position.x as int) + txt_comma_y()
        + int_text(vl.end_position.y as int) + txt_comma_z() + int_text(vl.end_position.z as int)
        + txt_close_map() + txt_voxels_list()
}

/// The `voxels:` mapping.
pub open spec fn emit_voxels_text(vl: VoxelListV) -> Seq<u8> {
    emit_voxels_prefix(vl) + emit_voxel_items(vl.voxels)
}

/// The document entry of one camera section.
pub open spec fn emit_section_text(s: CameraNodeSectionV) -> Seq<u8> {
    txt_section_entry() + int_text(s.tag as int) + txt_section_bytes() + bytes_text(s.bytes)
        + txt_close_map()
}

/// The section entries of one camera node.
pub open spec fn emit_section_items(s: Seq<CameraNodeSectionV>) -> Seq<u8>
    decreases s.len(),
{
    if s.len() == 0 {
        Seq::empty()
    } else {
        emit_section_text(s[0]) + emit_section_items(s.drop_first())
    }
}

/// The document entry of one camera node.
pub open spec fn emit_camera_text(n: CameraNodeV) -> Seq<u8> {
    txt_camera_entry() + int_text(n.index as int) + txt_camera_type() + int_text(
        n.camera_type as int,
    ) + txt_newline() + (if n.sections.len() == 0 {
        txt_sections_none()
    } else {
        txt_sections_hdr() + emit_section_items(n.sections)
    })
}

/// The camera entries, in order.
pub open spec fn emit_camera_items(s: Seq<CameraNodeV>) -> Seq<u8>
    decreases s.len(),
{
    if s.len() == 0 {
        Seq::empty()
    } else {
        emit_camera_text(s[0]) + emit_camera_items(s.drop_first())
    }
}

/// The `cameras:` mapping.
pub open spec fn emit_cameras_text(s: Seq<CameraNodeV>) -> Seq<u8> {
    if s.len() == 0 {
        txt_cameras_none()
    } else {
        txt_cameras_hdr() + emit_camera_items(s)
    }
}

/// The document entry of one lighting node; the float fields are the
/// four raw big-endian bytes of each 32-bit float.
pub open spec fn emit_lighting_text(n: LightingNode) -> Seq<u8> {
    txt_entry_open() + txt_light_pos() + bytes_text(be32(n.position.x)) + txt_comma_y()
        + bytes_text(be32(n.position.y)) + txt_comma_z() + bytes_text(be32(n.position.z))
        + txt_close_map_comma() + txt_flags_open() + bytes_text(be32(n.flags.x)) + txt_comma_sp()
        + bytes_text(be32(n.flags.y)) + txt_flags_close() + txt_rgb_open() + hex2(n.rgb.r) + hex2(
        n.rgb.g,
    ) + hex2(n.rgb.b) + txt_rgb_close()
}

/// The lighting entries, in order.
pub open spec fn emit_lighting_items(s: Seq<LightingNode>) -> Seq<u8>
    decreases s.len(),
{
    if s.len() == 0 {
        Seq::empty()
    } else {
        emit_lighting_text(s[0]) + emit_lighting_items(s.drop_first())
    }
}

/// The `lightings:` mapping.
pub open spec fn emit_lightings_text(s: Seq<LightingNode>) -> Seq<u8> {
    if s.len() == 0 {
        txt_lightings_none()
    } else {
        txt_lightings_hdr() + emit_lighting_items(s)
    }
}

/// The whole document.
pub open spec fn emit_level_text(l: LevelSetupV) -> Seq<u8> {
    txt_doc_type() + emit_voxels_text(l.voxel_list) + emit_cameras_text(l.camera_nodes)
        + emit_lightings_text(l.lighting_nodes)
}

/// Append the two bare hex digits of one byte.
fn push_hex2(out: &mut Vec<u8>, v: u8)
    ensures
        final(out)@ == old(out)@ + hex2(v),
{
    let hi = v / 16;
    let lo = v % 16;
    out.push(
        if hi < 10 {
            0x30 + hi
        } else {
            0x41 + hi - 10
        },
    );
    out.push(
        if lo < 10 {
            0x30 + lo
        } else {
            0x41 + lo - 10
        },
    );
    assert(out@ =~= old(out)@ + hex2(v));
}

/// Append one voxel's document entry.
#[verifier::loop_isolation(false)]
#[verifier::rlimit(100)]
fn push_voxel_text(out: &mut Vec<u8>, v: &Voxel)
    ensures
        final(out)@ == old(out)@ + emit_voxel_text(v@),
{
    let l_open = lit_entry_open();
    push_text(out, &l_open);
    let ghost objs = v@.objects;
    if v.objects.len() == 0 {
        let l = lit_objects_none();
        push_text(out, &l);
    } else {
        let l = lit_objects_open();
        push_text(out, &l);
        let ghost base = out@;
        let mut i: usize = 0;
        proof {
            assert(objs.skip(0) =~= objs);
            assert(Seq::<u8>::empty() + emit_obj_items(objs) =~= emit_obj_items(objs));
        }
        while i < v.objects.len()
            invariant
                i <= objs.len(),
                objs == v@.objects,
                objs.len() == v.objects@.len(),
                base + emit_obj_items(objs) =~= out@ + emit_obj_items(objs.skip(i as int)),
            decreases objs.len() - i,
        {
            let ghost ob = out@;
            let ghost i0 = i as int;
            let l_ind = lit_item_indent();
            push_text(out, &l_ind);
            match &v.objects[i] {
                Some(b) => {
                    push_bytes_text(out, b);
                },
                None => {
                    out.push(0x5B);
                    out.push(0x5D);
                    proof {
                        assert(bytes_items_text(Seq::<u8>::empty()) == Seq::<u8>::empty());
                        assert(bytes_text(Seq::<u8>::empty()) =~= seq![0x5Bu8, 0x5Du8]);
                    }
                },
            }
            let l_end = lit_item_end();
            push_text(out, &l_end);
            proof {
                assert(objs.skip(i0)[0] == objs[i0]);
                assert(objs.skip(i0).drop_first() =~= objs.skip(i0 + 1));
                assert(emit_obj_items(objs.skip(i0)) == txt_item_indent() + obj_slot_text(
                    objs[i0],
                ) + txt_item_end() + emit_obj_items(objs.skip(i0 + 1)));
                assert(out@ =~= ob + (txt_item_indent() + obj_slot_text(objs[i0])
                    + txt_item_end()));
                assert(ob + (txt_item_indent() + obj_slot_text(objs[i0]) + txt_item_end()
                    + emit_obj_items(objs.skip(i0 + 1))) =~= (ob + (txt_item_indent()
                    + obj_slot_text(objs[i0]) + txt_item_end())) + emit_obj_items(
                    objs.skip(i0 + 1),
                ));
                assert(base + emit_obj_items(objs) =~= out@ + emit_obj_items(objs.skip(i0 + 1)));
            }
            i = i + 1;
        }
        proof {
            assert(objs.skip(objs.len() as int) =~= Seq::<Option<Seq<u8>>>::empty());
            assert(emit_obj_items(Seq::<Option<Seq<u8>>>::empty()) == Seq::<u8>::empty());
            assert(out@ + Seq::<u8>::empty() =~= out@);
            assert(out@ =~= base + emit_obj_items(objs));
        }
        let l_close = lit_objects_close();
        push_text(out, &l_close);
    }
    let ghost prps = v@.props;
    if v.props.len() == 0 {
        let l = lit_props_none();
        push_text(out, &l);
    } else {
        let l = lit_props_open();
        push_text(out, &l);
        let ghost base2 = out@;
        let mut i: usize = 0;
        proof {
            assert(prps.skip(0) =~= prps);
            assert(Seq::<u8>::empty() + emit_prop_items(prps) =~= emit_prop_items(prps));
        }
        while i < v.props.len()
            invariant
                i <= prps.len(),
                prps == v@.props,
                prps.len() == v.props@.len(),
                base2 + emit_prop_items(prps) =~= out@ + emit_prop_items(prps.skip(i as int)),
            decreases prps.len() - i,
        {
            let ghost ob = out@;
            let ghost i0 = i as int;
            let l_ind = lit_item_indent();
            push_text(out, &l_ind);
            push_bytes_text(out, &v.props[i]);
            let l_end = lit_item_end();
            push_text(out, &l_end);
            proof {
                assert(prps.skip(i0)[0] == prps[i0]);
                assert(prps[i0] == v.props@[i0]@);
                assert(prps.skip(i0).drop_first() =~= prps.skip(i0 + 1));
                assert(emit_prop_items(prps.skip(i0)) == txt_item_indent() + bytes_text(prps[i0])
                    + txt_item_end() + emit_prop_items(prps.skip(i0 + 1)));
                assert(out@ =~= ob + (txt_item_indent() + bytes_text(prps[i0]) + txt_item_end()));
                assert(ob + (txt_item_indent() + bytes_text(prps[i0]) + txt_item_end()
                    + emit_prop_items(prps.skip(i0 + 1))) =~= (ob + (txt_item_indent()
                    + bytes_text(prps[i0]) + txt_item_end())) + emit_prop_items(
                    prps.skip(i0 + 1),
                ));
                assert(base2 + emit_prop_items(prps) =~= out@ + emit_prop_items(
                    prps.skip(i0 + 1),
                ));
            }
            i = i + 1;
        }
        proof {
            assert(prps.skip(prps.len() as int) =~= Seq::<Seq<u8>>::empty());
            assert(emit_prop_items(Seq::<Seq<u8>>::empty()) == Seq::<u8>::empty());
            assert(out@ + Seq::<u8>::empty() =~= out@);
            assert(out@ =~= base2 + emit_prop_items(prps));
        }
        let l_close = lit_props_close();
        push_text(out, &l_close);
    }
    let l_done = lit_entry_close();
    push_text(out, &l_done);
    assert(out@ =~= old(out)@ + emit_voxel_text(v@));
}

/// Append one lighting node's document entry.
fn push_lighting_text(out: &mut Vec<u8>, n: &LightingNode)
    ensures
        final(out)@ == old(out)@ + emit_lighting_text(*n),
{
    let l1 = lit_entry_open();
    push_text(out, &l1);
    let l2 = lit_light_pos();
    push_text(out, &l2);
    let mut px: Vec<u8> = Vec::new();
    crate::bytes::push_be32(&mut px, n.position.x);
    push_bytes_text(out, &px);
    let l3 = lit_comma_y();
    push_text(out, &l3);
    let mut py: Vec<u8> = Vec::new();
    crate::bytes::push_be32(&mut py, n.position.y);
    push_bytes_text(out, &py);
    let l4 = lit_comma_z();
    push_text(out, &l4);
    let mut pz: Vec<u8> = Vec::new();
    crate::bytes::push_be32(&mut pz, n.position.z);
    push_bytes_text(out, &pz);
    let l5 = lit_close_map_comma();
    push_text(out, &l5);
    let l6 = lit_flags_open();
    push_text(out, &l6);
    let mut fx: Vec<u8> = Vec::new();
    crate::bytes::push_be32(&mut fx, n.flags.x);
    push_bytes_text(out, &fx);
    let l7 = lit_comma_sp();
    push_text(out, &l7);
    let mut fy: Vec<u8> = Vec::new();
    crate::bytes::push_be32(&mut fy, n.flags.y);
    push_bytes_text(out, &fy);
    let l8 = lit_flags_close();
    push_text(out, &l8);
    let l9 = lit_rgb_open();
    push_text(out, &l9);
    push_hex2(out, n.rgb.r);
    push_hex2(out, n.rgb.g);
    push_hex2(out, n.rgb.b);
    let l10 = lit_rgb_close();
    push_text(out, &l10);
    proof {
        assert(Seq::<u8>::empty() + be32(n.position.x) =~= be32(n.position.x));
        assert(Seq::<u8>::empty() + be32(n.position.y) =~= be32(n.position.y));
        assert(Seq::<u8>::empty() + be32(n.position.z) =~= be32(n.position.z));
        assert(Seq::<u8>::empty() + be32(n.flags.x) =~= be32(n.flags.x));
        assert(Seq::<u8>::empty() + be32(n.flags.y) =~= be32(n.flags.y));
        assert(out@ =~= old(out)@ + emit_lighting_text(*n));
    }
}

/// Append one camera node's document entry.
#[verifier::loop_isolation(false)]
fn push_camera_text(out: &mut Vec<u8>, n: &CameraNode)
    ensures
        final(out)@ == old(out)@ + emit_camera_text(n@),
{
    let l1 = lit_camera_entry();
    push_text(out, &l1);
    push_int(out, n.index as i64);
    let l2 = lit_camera_type();
    push_text(out, &l2);
    push_int(out, n.camera_type as i64);
    let l3 = lit_newline();
    push_text(out, &l3);
    let ghost ss = n@.sections;
    if n.sections.len() == 0 {
        let l4 = lit_sections_none();
        push_text(out, &l4);
    } else {
        let l4 = lit_sections_hdr();
        push_text(out, &l4);
        let ghost base = out@;
        let mut i: usize = 0;
        proof {
            assert(ss.skip(0) =~= ss);
            assert(Seq::<u8>::empty() + emit_section_items(ss) =~= emit_section_items(ss));
        }
        while i < n.sections.len()
            invariant
                i <= ss.len(),
                ss == n@.sections,
                ss.len() == n.sections@.len(),
                base + emit_section_items(ss) =~= out@ + emit_section_items(ss.skip(i as int)),
            decreases ss.len() - i,
        {
            let ghost ob = out@;
            let ghost i0 = i as int;
            let l5 = lit_section_entry();
            push_text(out, &l5);
            push_int(out, n.sections[i].tag as i64);
            let l6 = lit_section_bytes();
            push_text(out, &l6);
            push_bytes_text(out, &n.sections[i].bytes);
            let l7 = lit_close_map();
            push_text(out, &l7);
            proof {
                assert(ss.skip(i0)[0] == ss[i0]);
                assert(ss[i0] == n.sections@[i0]@);
                assert(ss.skip(i0).drop_first() =~= ss.skip(i0 + 1));
                assert(emit_section_items(ss.skip(i0)) == emit_section_text(ss[i0])
                    + emit_section_items(ss.skip(i0 + 1)));
                assert(out@ =~= ob + emit_section_text(ss[i0]));
                assert(ob + (emit_section_text(ss[i0]) + emit_section_items(ss.skip(i0 + 1)))
                    =~= (ob + emit_section_text(ss[i0])) + emit_section_items(ss.skip(i0 + 1)));
                assert(base + emit_section_items(ss) =~= out@ + emit_section_items(
                    ss.skip(i0 + 1),
                ));
            }
            i = i + 1;
        }
        proof {
            assert(ss.skip(ss.len() as int) =~= Seq::<CameraNodeSectionV>::empty());
            assert(emit_section_items(Seq::<CameraNodeSectionV>::empty()) == Seq::<u8>::empty());
            assert(out@ + Seq::<u8>::empty() =~= out@);
            assert(out@ =~= base + emit_section_items(ss));
        }
    }
    assert(out@ =~= old(out)@ + emit_camera_text(n@));
}

/// Append the `voxels:` mapping.
#[verifier::loop_isolation(false)]
#[verifier::rlimit(100)]
fn push_voxels_prefix(out: &mut Vec<u8>, vl: &VoxelList)
    ensures
        final(out)@ == old(out)@ + emit_voxels_prefix(vl@),
{
    let l2 = lit_voxels_hdr();
    push_text(out, &l2);
    let l3 = lit_start_pos();
    push_text(out, &l3);
    push_int(out, vl.start_position.x as i64);
    let l4 = lit_comma_y();
    push_text(out, &l4);
    push_int(out, vl.start_position.y as i64);
    let l5 = lit_comma_z();
    push_text(out, &l5);
    push_int(out, vl.start_position.z as i64);
    let l6 = lit_close_map();
    push_text(out, &l6);
    let l7 = lit_end_pos();
    push_text(out, &l7);
    push_int(out, vl.end_position.x as i64);
    let l8 = lit_comma_y();
    push_text(out, &l8);
    push_int(out, vl.end_position.y as i64);
    let l9 = lit_comma_z();
    push_text(out, &l9);
    push_int(out, vl.end_position.z as i64);
    let l10 = lit_close_map();
    push_text(out, &l10);
    let l11 = lit_voxels_list();
    push_text(out, &l11);
    assert(out@ =~= old(out)@ + emit_voxels_prefix(vl@));
}

/// Append the `voxels:` mapping.
#[verifier::loop_isolation(false)]
#[verifier::rlimit(100)]
fn push_voxels_section(out: &mut Vec<u8>, vl: &VoxelList)
    ensures
        final(out)@ == old(out)@ + emit_voxels_text(vl@),
{
    push_voxels_prefix(out, vl);
    let ghost vs = vl@.voxels;
    let ghost base = out@;
    let mut i: usize = 0;
    proof {
        assert(vs.skip(0) =~= vs);
        assert(Seq::<u8>::empty() + emit_voxel_items(vs) =~= emit_voxel_items(vs));
    }
    while i < vl.voxels.len()
        invariant
            i <= vs.len(),
            vs == vl@.voxels,
            vs.len() == vl.voxels@.len(),
            base + emit_voxel_items(vs) =~= out@ + emit_voxel_items(vs.skip(i as int)),
        decreases vs.len() - i,
    {
        let ghost ob = out@;
        let ghost i0 = i as int;
        push_voxel_text(out, &vl.voxels[i]);
        proof {
            assert(vs.skip(i0)[0] == vs[i0]);
            assert(vs[i0] == vl.voxels@[i0]@);
            assert(vs.skip(i0).drop_first() =~= vs.skip(i0 + 1));
            assert(emit_voxel_items(vs.skip(i0)) == emit_voxel_text(vs[i0]) + emit_voxel_items(
                vs.skip(i0 + 1),
            ));
            assert(ob + (emit_voxel_text(vs[i0]) + emit_voxel_items(vs.skip(i0 + 1))) =~= (ob
                + emit_voxel_text(vs[i0])) + emit_voxel_items(vs.skip(i0 + 1)));
            assert(base + emit_voxel_items(vs) =~= out@ + emit_voxel_items(vs.skip(i0 + 1)));
        }
        i = i + 1;
    }
    proof {
        assert(vs.skip(vs.len() as int) =~= Seq::<VoxelV>::empty());
        assert(emit_voxel_items(Seq::<VoxelV>::empty()) == Seq::<u8>::empty());
        assert(out@ + Seq::<u8>::empty() =~= out@);
        assert(out@ =~= old(out)@ + emit_voxels_text(vl@));
    }
}

/// Append the `cameras:` mapping.
#[verifier::loop_isolation(false)]
#[verifier::rlimit(100)]
fn push_cameras_section(out: &mut Vec<u8>, cl: &CameraNodeList)
    ensures
        final(out)@ == old(out)@ + emit_cameras_text(cl@),
{
    let ghost cs = cl@;
    if cl.nodes.len() == 0 {
        let l12 = lit_cameras_none();
        push_text(out, &l12);
    } else {
        let l12 = lit_cameras_hdr();
        push_text(out, &l12);
        let ghost base2 = out@;
        let mut i: usize = 0;
        proof {
            assert(cs.skip(0) =~= cs);
            assert(Seq::<u8>::empty() + emit_camera_items(cs) =~= emit_camera_items(cs));
        }
        while i < cl.nodes.len()
            invariant
                i <= cs.len(),
                cs == cl@,
                cs.len() == cl.nodes@.len(),
                base2 + emit_camera_items(cs) =~= out@ + emit_camera_items(cs.skip(i as int)),
            decreases cs.len() - i,
        {
            let ghost ob = out@;
            let ghost i0 = i as int;
            push_camera_text(out, &cl.nodes[i]);
            proof {
                assert(cs.skip(i0)[0] == cs[i0]);
                assert(cs[i0] == cl.nodes@[i0]@);
                assert(cs.skip(i0).drop_first() =~= cs.skip(i0 + 1));
                assert(emit_camera_items(cs.skip(i0)) == emit_camera_text(cs[i0])
                    + emit_camera_items(cs.skip(i0 + 1)));
                assert(ob + (emit_camera_text(cs[i0]) + emit_camera_items(cs.skip(i0 + 1))) =~= (
                ob + emit_camera_text(cs[i0])) + emit_camera_items(cs.skip(i0 + 1)));
                assert(base2 + emit_camera_items(cs) =~= out@ + emit_camera_items(
                    cs.skip(i0 + 1),
                ));
            }
            i = i + 1;
        }
        proof {
            assert(cs.skip(cs.len() as int) =~= Seq::<CameraNodeV>::empty());
            assert(emit_camera_items(Seq::<CameraNodeV>::empty()) == Seq::<u8>::empty());
            assert(out@ + Seq::<u8>::empty() =~= out@);
            assert(out@ =~= base2 + emit_camera_items(cs));
        }
    }
}

/// Append the `lightings:` mapping.
#[verifier::loop_isolation(false)]
#[verifier::rlimit(100)]
fn push_lightings_section(out: &mut Vec<u8>, ll: &LightingNodeList)
    ensures
        final(out)@ == old(out)@ + emit_lightings_text(ll@),
{
    let ghost ls = ll@;
    if ll.nodes.len() == 0 {
        let l13 = lit_lightings_none();
        push_text(out, &l13);
    } else {
        let l13 = lit_lightings_hdr();
        push_text(out, &l13);
        let ghost base3 = out@;
        let mut i: usize = 0;
        proof {
            assert(ls.skip(0) =~= ls);
            assert(Seq::<u8>::empty() + emit_lighting_items(ls) =~= emit_lighting_items(ls));
        }
        while i < ll.nodes.len()
            invariant
                i <= ls.len(),
                ls == ll@,
                ls.len() == ll.nodes@.len(),
                base3 + emit_lighting_items(ls) =~= out@ + emit_lighting_items(ls.skip(i as int)),
            decreases ls.len() - i,
        {
            let ghost ob = out@;
            let ghost i0 = i as int;
            push_lighting_text(out, &ll.nodes[i]);
            proof {
                assert(ls.skip(i0)[0] == ls[i0]);
                assert(ls.skip(i0).drop_first() =~= ls.skip(i0 + 1));
                assert(emit_lighting_items(ls.skip(i0)) == emit_lighting_text(ls[i0])
                    + emit_lighting_items(ls.skip(i0 + 1)));
                assert(ob + (emit_lighting_text(ls[i0]) + emit_lighting_items(ls.skip(i0 + 1)))
                    =~= (ob + emit_lighting_text(ls[i0])) + emit_lighting_items(ls.skip(i0 + 1)));
                assert(base3 + emit_lighting_items(ls) =~= out@ + emit_lighting_items(
                    ls.skip(i0 + 1),
                ));
            }
            i = i + 1;
        }
        proof {
            assert(ls.skip(ls.len() as int) =~= Seq::<LightingNode>::empty());
            assert(emit_lighting_items(Seq::<LightingNode>::empty()) == Seq::<u8>::empty());
            assert(out@ + Seq::<u8>::empty() =~= out@);
            assert(out@ =~= base3 + emit_lighting_items(ls));
        }
    }
}

impl LevelSetup {
    /// Emit the whole textual document.
    pub fn to_yaml(&self) -> (r: Vec<u8>)
        ensures
            r@ == emit_level_text(self@),
    {
        let mut out: Vec<u8> = Vec::new();
        let l1 = lit_doc_type();
        push_text(&mut out, &l1);
        push_voxels_section(&mut out, &self.voxel_list);
        push_cameras_section(&mut out, &self.camera_nodes);
        push_lightings_section(&mut out, &self.lighting_nodes);
        assert(out@ =~= emit_level_text(self@));
        out
    }
}

// ---------------------------------------------------------------------
// The document reader
// ---------------------------------------------------------------------

/// Parse two bare hex digits.
pub open spec fn p_hex2(b: Seq<u8>, i: int) -> Option<(u8, int)> {
    if 0 <= i && i + 2 <= b.len() {
        match (hexval(b[i]), hexval(b[i + 1])) {
            (Some(hi), Some(lo)) => Some(((hi * 16 + lo) as u8, i + 2)),
            _ => None,
        }
    } else {
        None
    }
}

/// Parse the object items of one voxel up to their closing bracket.
/// An empty byte-array literal is a declared-but-empty slot.
pub open spec fn p_obj_items(b: Seq<u8>, i: int, acc: Seq<Option<Seq<u8>>>) -> Option<
    (Seq<Option<Seq<u8>>>, int),
>
    decreases b.len() - i,
{
    match eat_lit_s(b, i, txt_item_indent()) {
        Some(j) => match p_bytes(b, j) {
            Some((bs, k)) => match eat_lit_s(b, k, txt_item_end()) {
                Some(m) => if i < m <= b.len() {
                    p_obj_items(
                        b,
                        m,
                        acc.push(
                            if bs.len() == 0 {
                                Option::None
                            } else {
                                Some(bs)
                            },
                        ),
                    )
                } else {
                    None
                },
                None => None,
            },
            None => None,
        },
        None => match eat_lit_s(b, i, txt_objects_close()) {
            Some(j) => Some((acc, j)),
            None => None,
        },
    }
}

/// Parse the prop items of one voxel up to their closing bracket.
pub open spec fn p_prop_items(b: Seq<u8>, i: int, acc: Seq<Seq<u8>>) -> Option<
    (Seq<Seq<u8>>, int),
>
    decreases b.len() - i,
{
    match eat_lit_s(b, i, txt_item_indent()) {
        Some(j) => match p_bytes(b, j) {
            Some((bs, k)) => match eat_lit_s(b, k, txt_item_end()) {
                Some(m) => if i < m <= b.len() {
                    p_prop_items(b, m, acc.push(bs))
                } else {
                    None
                },
                None => None,
            },
            None => None,
        },
        None => match eat_lit_s(b, i, txt_props_close()) {
            Some(j) => Some((acc, j)),
            None => None,
        },
    }
}

/// Parse one voxel entry.
pub open spec fn p_voxel_t(b: Seq<u8>, i: int) -> Option<(VoxelV, int)> {
    match eat_lit_s(b, i, txt_entry_open()) {
        Some(j) => {
            let objres = match eat_lit_s(b, j, txt_objects_none()) {
                Some(k) => Some((Seq::<Option<Seq<u8>>>::empty(), k)),
                None => match eat_lit_s(b, j, txt_objects_open()) {
                    Some(k) => p_obj_items(b, k, Seq::empty()),
                    None => None,
                },
            };
            match objres {
                Some((objects, k2)) => {
                    let propres = match eat_lit_s(b, k2, txt_props_none()) {
                        Some(m) => Some((Seq::<Seq<u8>>::empty(), m)),
                        None => match eat_lit_s(b, k2, txt_props_open()) {
                            Some(m) => p_prop_items(b, m, Seq::empty()),
                            None => None,
                        },
                    };
                    match propres {
                        Some((props, m2)) => match eat_lit_s(b, m2, txt_entry_close()) {
                            Some(e) => Some((VoxelV { objects, props }, e)),
                            None => None,
                        },
                        None => None,
                    }
                },
                None => None,
            }
        },
        None => None,
    }
}

/// Parse voxel entries for as long as one opens.
pub open spec fn p_voxel_items(b: Seq<u8>, i: int, acc: Seq<VoxelV>) -> Option<
    (Seq<VoxelV>, int),
>
    decreases b.len() - i,
{
    if eat_lit_s(b, i, txt_entry_open()) is Some {
        match p_voxel_t(b, i) {
            Some((v, j)) => if i < j <= b.len() {
                p_voxel_items(b, j, acc.push(v))
            } else {
                None
            },
            None => None,
        }
    } else {
        Some((acc, i))
    }
}

/// Parse the `voxels:` mapping.
pub open spec fn p_voxels_t(b: Seq<u8>, i: int) -> Option<(VoxelListV, int)> {
    match eat_lit_s(b, i, txt_voxels_hdr()) {
        Some(a1) => match eat_lit_s(b, a1, txt_start_pos()) {
            Some(a2) => match p_int(b, a2) {
                Some((sx, a3)) => if -0x80000000 <= sx <= 0x7FFFFFFF {
                    match eat_lit_s(b, a3, txt_comma_y()) {
                        Some(a4) => match p_int(b, a4) {
                            Some((sy, a5)) => if -0x80000000 <= sy <= 0x7FFFFFFF {
                                match eat_lit_s(b, a5, txt_comma_z()) {
                                    Some(a6) => match p_int(b, a6) {
                                        Some((sz, a7)) => if -0x80000000 <= sz <= 0x7FFFFFFF {
                                            p_voxels_rest(b, a7, sx as i32, sy as i32, sz as i32)
                                        } else {
                                            None
                                        },
                                        None => None,
                                    },
                                    None => None,
                                }
                            } else {
                                None
                            },
                            None => None,
                        },
                        None => None,
                    }
                } else {
                    None
                },
                None => None,
            },
            None => None,
        },
        None => None,
    }
}

/// Parse the rest of the `voxels:` mapping after the start triple.
pub open spec fn p_voxels_rest(b: Seq<u8>, i: int, sx: i32, sy: i32, sz: i32) -> Option<
    (VoxelListV, int),
> {
    match eat_lit_s(b, i, txt_close_map()) {
        Some(a1) => match eat_lit_s(b, a1, txt_end_pos()) {
            Some(a2) => match p_int(b, a2) {
                Some((ex, a3)) => if -0x80000000 <= ex <= 0x7FFFFFFF {
                    match eat_lit_s(b, a3, txt_comma_y()) {
                        Some(a4) => match p_int(b, a4) {
                            Some((ey, a5)) => if -0x80000000 <= ey <= 0x7FFFFFFF {
                                match eat_lit_s(b, a5, txt_comma_z()) {
                                    Some(a6) => match p_int(b, a6) {
                                        Some((ez, a7)) => if -0x80000000 <= ez <= 0x7FFFFFFF {
                                            match eat_lit_s(b, a7, txt_close_map()) {
                                                Some(a8) => match eat_lit_s(
                                                    b,
                                                    a8,
                                                    txt_voxels_list(),
                                                ) {
                                                    Some(a9) => match p_voxel_items(
                                                        b,
                                                        a9,
                                                        Seq::empty(),
                                                    ) {
                                                        Some((vs, a10)) => Some(
                                                            (
                                                                VoxelListV {
                                                                    start_position: Vec3i {
                                                                        x: sx,
                                                                        y: sy,
                                                                        z: sz,
                                                                    },
                                                                    end_position: Vec3i {
                                                                        x: ex as i32,
                                                                        y: ey as i32,
                                                                        z: ez as i32,
                                                                    },
                                                                    voxels: vs,
                                                                },
                                                                a10,
                                                            ),
                                                        ),
                                                        None => None,
                                                    },
                                                    None => None,
                                                },
                                                None => None,
                                            }
                                        } else {
                                            None
                                        },
                                        None => None,
                                    },
                                    None => None,
                                }
                            } else {
                                None
                            },
                            None => None,
                        },
                        None => None,
                    }
                } else {
                    None
                },
                None => None,
            },
            None => None,
        },
        None => None,
    }
}

/// Parse section entries for as long as one opens.
pub open spec fn p_section_items(b: Seq<u8>, i: int, acc: Seq<CameraNodeSectionV>) -> Option<
    (Seq<CameraNodeSectionV>, int),
>
    decreases b.len() - i,
{
    if eat_lit_s(b, i, txt_section_entry()) is Some {
        match eat_lit_s(b, i, txt_section_entry()) {
            Some(j) => match p_int(b, j) {
                Some((tag, k)) => if 0 <= tag <= 255 {
                    match eat_lit_s(b, k, txt_section_bytes()) {
                        Some(m) => match p_bytes(b, m) {
                            Some((bs, e)) => match eat_lit_s(b, e, txt_close_map()) {
                                Some(f) => if i < f <= b.len() {
                                    p_section_items(
                                        b,
                                        f,
                                        acc.push(
                                            CameraNodeSectionV { tag: tag as u8, bytes: bs },
                                        ),
                                    )
                                } else {
                                    None
                                },
                                None => None,
                            },
                            None => None,
                        },
                        None => None,
                    }
                } else {
                    None
                },
                None => None,
            },
            None => None,
        }
    } else {
        Some((acc, i))
    }
}

/// Parse one camera entry.
pub open spec fn p_camera_t(b: Seq<u8>, i: int) -> Option<(CameraNodeV, int)> {
    match eat_lit_s(b, i, txt_camera_entry()) {
        Some(a1) => match p_int(b, a1) {
            Some((idx, a2)) => if -0x8000 <= idx <= 0x7FFF {
                match eat_lit_s(b, a2, txt_camera_type()) {
                    Some(a3) => match p_int(b, a3) {
                        Some((t, a4)) => if 0 <= t <= 4 {
                            match eat_lit_s(b, a4, txt_newline()) {
                                Some(a5) => {
                                    let secres = match eat_lit_s(b, a5, txt_sections_none()) {
                                        Some(a6) => Some(
                                            (Seq::<CameraNodeSectionV>::empty(), a6),
                                        ),
                                        None => match eat_lit_s(b, a5, txt_sections_hdr()) {
                                            Some(a6) => p_section_items(b, a6, Seq::empty()),
                                            None => None,
                                        },
                                    };
                                    match secres {
                                        Some((ss, a7)) => Some(
                                            (
                                                CameraNodeV {
                                                    index: idx as i16,
                                                    camera_type: t as u8,
                                                    sections: ss,
                                                },
                                                a7,
                                            ),
                                        ),
                                        None => None,
                                    }
                                },
                                None => None,
                            }
                        } else {
                            None
                        },
                        None => None,
                    },
                    None => None,
                }
            } else {
                None
            },
            None => None,
        },
        None => None,
    }
}

/// Parse camera entries for as long as one opens.
pub open spec fn p_camera_items(b: Seq<u8>, i: int, acc: Seq<CameraNodeV>) -> Option<
    (Seq<CameraNodeV>, int),
>
    decreases b.len() - i,
{
    if eat_lit_s(b, i, txt_camera_entry()) is Some {
        match p_camera_t(b, i) {
            Some((n, j)) => if i < j <= b.len() {
                p_camera_items(b, j, acc.push(n))
            } else {
                None
            },
            None => None,
        }
    } else {
        Some((acc, i))
    }
}

/// Parse the `cameras:` mapping.
pub open spec fn p_cameras_t(b: Seq<u8>, i: int) -> Option<(Seq<CameraNodeV>, int)> {
    match eat_lit_s(b, i, txt_cameras_none()) {
        Some(j) => Some((Seq::<CameraNodeV>::empty(), j)),
        None => match eat_lit_s(b, i, txt_cameras_hdr()) {
            Some(j) => p_camera_items(b, j, Seq::empty()),
            None => None,
        },
    }
}

/// Parse one lighting entry.
pub open spec fn p_lighting_t(b: Seq<u8>, i: int) -> Option<(LightingNode, int)> {
    match eat_lit_s(b, i, txt_entry_open()) {
        Some(a1) => match eat_lit_s(b, a1, txt_light_pos()) {
            Some(a2) => match p_bytes(b, a2) {
                Some((px, a3)) => if px.len() == 4 {
                    match eat_lit_s(b, a3, txt_comma_y()) {
                        Some(a4) => match p_bytes(b, a4) {
                            Some((py, a5)) => if py.len() == 4 {
                                match eat_lit_s(b, a5, txt_comma_z()) {
                                    Some(a6) => match p_bytes(b, a6) {
                                        Some((pz, a7)) => if pz.len() == 4 {
                                            p_lighting_rest(b, a7, px, py, pz)
                                        } else {
                                            None
                                        },
                                        None => None,
                                    },
                                    None => None,
                                }
                            } else {
                                None
                            },
                            None => None,
                        },
                        None => None,
                    }
                } else {
                    None
                },
                None => None,
            },
            None => None,
        },
        None => None,
    }
}

/// Parse the rest of one lighting entry after its position.
pub open spec fn p_lighting_rest(b: Seq<u8>, i: int, px: Seq<u8>, py: Seq<u8>, pz: Seq<u8>)
    -> Option<(LightingNode, int)>
    recommends
        px.len() == 4,
        py.len() == 4,
        pz.len() == 4,
{
    match eat_lit_s(b, i, txt_close_map_comma()) {
        Some(a1) => match eat_lit_s(b, a1, txt_flags_open()) {
            Some(a2) => match p_bytes(b, a2) {
                Some((fx, a3)) => if fx.len() == 4 {
                    match eat_lit_s(b, a3, txt_comma_sp()) {
                        Some(a4) => match p_bytes(b, a4) {
                            Some((fy, a5)) => if fy.len() == 4 {
                                match eat_lit_s(b, a5, txt_flags_close()) {
                                    Some(a6) => match eat_lit_s(b, a6, txt_rgb_open()) {
                                        Some(a7) => match p_hex2(b, a7) {
                                            Some((r, a8)) => match p_hex2(b, a8) {
                                                Some((g, a9)) => match p_hex2(b, a9) {
                                                    Some((bb, a10)) => match eat_lit_s(
                                                        b,
                                                        a10,
                                                        txt_rgb_close(),
                                                    ) {
                                                        Some(a11) => Some(
                                                            (
                                                                LightingNode {
                                                                    position: Vec3Bits {
                                                                        x: crate::bytes::u32v(
                                                                            px[0],
                                                                            px[1],
                                                                            px[2],
                                                                            px[3],
                                                                        ),
                                                                        y: crate::bytes::u32v(
                                                                            py[0],
                                                                            py[1],
                                                                            py[2],
                                                                            py[3],
                                                                        ),
                                                                        z: crate::bytes::u32v(
                                                                            pz[0],
                                                                            pz[1],
                                                                            pz[2],
                                                                            pz[3],
                                                                        ),
                                                                    },
                                                                    flags: Vec2Bits {
                                                                        x: crate::bytes::u32v(
                                                                            fx[0],
                                                                            fx[1],
                                                                            fx[2],
                                                                            fx[3],
                                                                        ),
                                                                        y: crate::bytes::u32v(
                                                                            fy[0],
                                                                            fy[1],
                                                                            fy[2],
                                                                            fy[3],
                                                                        ),
                                                                    },
                                                                    rgb: Rgb { r, g, b: bb },
                                                                },
                                                                a11,
                                                            ),
                                                        ),
                                                        None => None,
                                                    },
                                                    None => None,
                                                },
                                                None => None,
                                            },
                                            None => None,
                                        },
                                        None => None,
                                    },
                                    None => None,
                                }
                            } else {
                                None
                            },
                            None => None,
                        },
                        None => None,
                    }
                } else {
                    None
                },
                None => None,
            },
            None => None,
        },
        None => None,
    }
}

/// Parse lighting entries for as long as one opens.
pub open spec fn p_lighting_items(b: Seq<u8>, i: int, acc: Seq<LightingNode>) -> Option<
    (Seq<LightingNode>, int),
>
    decreases b.len() - i,
{
    if eat_lit_s(b, i, txt_entry_open()) is Some {
        match p_lighting_t(b, i) {
            Some((n, j)) => if i < j <= b.len() {
                p_lighting_items(b, j, acc.push(n))
            } else {
                None
            },
            None => None,
        }
    } else {
        Some((acc, i))
    }
}

/// Parse the `lightings:` mapping.
pub open spec fn p_lightings_t(b: Seq<u8>, i: int) -> Option<(Seq<LightingNode>, int)> {
    match eat_lit_s(b, i, txt_lightings_none()) {
        Some(j) => Some((Seq::<LightingNode>::empty(), j)),
        None => match eat_lit_s(b, i, txt_lightings_hdr()) {
            Some(j) => p_lighting_items(b, j, Seq::empty()),
            None => None,
        },
    }
}

/// Parse a whole document: the leading type key, the three mappings in
/// their fixed order, and nothing after them.  A document whose value
/// breaks the structural invariants — a voxel count that differs from
/// the lattice volume, a record of the wrong width, an illegal camera
/// section — is rejected.
pub open spec fn p_level_t(b: Seq<u8>) -> Option<LevelSetupV> {
    match eat_lit_s(b, 0, txt_doc_type()) {
        Some(a1) => match p_voxels_t(b, a1) {
            Some((vl, a2)) => match p_cameras_t(b, a2) {
                Some((cs, a3)) => match p_lightings_t(b, a3) {
                    Some((ls, a4)) => if a4 == b.len() {
                        let v = LevelSetupV {
                            voxel_list: vl,
                            camera_nodes: cs,
                            lighting_nodes: ls,
                        };
                        if crate::level::level_valid(v) {
                            Some(v)
                        } else {
                            None
                        }
                    } else {
                        None
                    },
                    None => None,
                },
                None => None,
            },
            None => None,
        },
        None => None,
    }
}

/// A successful byte-item parse moves the position forward.
pub proof fn lemma_p_bytes_items_advance(b: Seq<u8>, i: int, acc: Seq<u8>)
    ensures
        p_bytes_items(b, i, acc) matches Some(r) ==> i < r.1 <= b.len(),
    decreases b.len() - i,
{
    if 0 <= i < b.len() && b[i] != 0x5D {
        match p_hex_byte(b, i) {
            Some((v, j)) => {
                if j < b.len() && b[j] == 0x5D {
                } else if j + 2 <= b.len() && b[j] == 0x2C && b[j + 1] == 0x20 {
                    lemma_p_bytes_items_advance(b, j + 2, acc.push(v));
                }
            },
            None => {},
        }
    }
}

/// A successful byte-list parse moves the position forward.
pub proof fn lemma_p_bytes_advance(b: Seq<u8>, i: int)
    ensures
        p_bytes(b, i) matches Some(r) ==> i < r.1 <= b.len(),
{
    if 0 <= i < b.len() && b[i] == 0x5B {
        lemma_p_bytes_items_advance(b, i + 1, Seq::empty());
    }
}

/// A successful object-items parse moves the position forward.
pub proof fn lemma_p_obj_items_advance(b: Seq<u8>, i: int, acc: Seq<Option<Seq<u8>>>)
    ensures
        p_obj_items(b, i, acc) matches Some(r) ==> i < r.1 <= b.len(),
    decreases b.len() - i,
{
    lemma_lit_lens();
    match eat_lit_s(b, i, txt_item_indent()) {
        Some(j) => match p_bytes(b, j) {
            Some((bs, k)) => match eat_lit_s(b, k, txt_item_end()) {
                Some(m) => if i < m <= b.len() {
                    lemma_p_obj_items_advance(
                        b,
                        m,
                        acc.push(
                            if bs.len() == 0 {
                                Option::None
                            } else {
                                Some(bs)
                            },
                        ),
                    );
                },
                None => {},
            },
            None => {},
        },
        None => {},
    }
}

/// A successful prop-items parse moves the position forward.
pub proof fn lemma_p_prop_items_advance(b: Seq<u8>, i: int, acc: Seq<Seq<u8>>)
    ensures
        p_prop_items(b, i, acc) matches Some(r) ==> i < r.1 <= b.len(),
    decreases b.len() - i,
{
    lemma_lit_lens();
    match eat_lit_s(b, i, txt_item_indent()) {
        Some(j) => match p_bytes(b, j) {
            Some((bs, k)) => match eat_lit_s(b, k, txt_item_end()) {
                Some(m) => if i < m <= b.len() {
                    lemma_p_prop_items_advance(b, m, acc.push(bs));
                },
                None => {},
            },
            None => {},
        },
        None => {},
    }
}

/// A successful voxel parse moves the position forward.
pub proof fn lemma_p_voxel_advance(b: Seq<u8>, i: int)
    ensures
        p_voxel_t(b, i) matches Some(r) ==> i < r.1 <= b.len(),
{
    lemma_lit_lens();
    match eat_lit_s(b, i, txt_entry_open()) {
        Some(j) => {
            let objres = match eat_lit_s(b, j, txt_objects_none()) {
                Some(k) => Some((Seq::<Option<Seq<u8>>>::empty(), k)),
                None => match eat_lit_s(b, j, txt_objects_open()) {
                    Some(k) => {
                        lemma_p_obj_items_advance(b, k, Seq::empty());
                        p_obj_items(b, k, Seq::empty())
                    },
                    None => None,
                },
            };
            match objres {
                Some((objects, k2)) => {
                    assert(i < k2 <= b.len());
                    match eat_lit_s(b, k2, txt_props_none()) {
                        Some(_) => {},
                        None => match eat_lit_s(b, k2, txt_props_open()) {
                            Some(m) => {
                                lemma_p_prop_items_advance(b, m, Seq::empty());
                            },
                            None => {},
                        },
                    }
                },
                None => {},
            }
        },
        None => {},
    }
}

/// Parse two bare hex digits.
fn parse_hex2(b: &[u8], i: usize) -> (r: Option<(u8, usize)>)
    ensures
        match r {
            Some((v, j)) => p_hex2(b@, i as int) == Some((v, j as int)),
            None => p_hex2(b@, i as int) is None,
        },
{
    if i > b.len() || b.len() - i < 2 {
        return None;
    }
    let c0 = b[i];
    let c1 = b[i + 1];
    let hi: u8 = if 0x30 <= c0 && c0 <= 0x39 {
        c0 - 0x30
    } else if 0x41 <= c0 && c0 <= 0x46 {
        c0 - 0x41 + 10
    } else {
        return None;
    };
    let lo: u8 = if 0x30 <= c1 && c1 <= 0x39 {
        c1 - 0x30
    } else if 0x41 <= c1 && c1 <= 0x46 {
        c1 - 0x41 + 10
    } else {
        return None;
    };
    Some((hi * 16 + lo, i + 2))
}

/// Parse the object items of one voxel.
#[verifier::loop_isolation(false)]
fn parse_obj_items(b: &[u8], i: usize) -> (r: Option<(Vec<Option<Vec<u8>>>, usize)>)
    ensures
        match r {
            Some((v, j)) => p_obj_items(b@, i as int, Seq::empty()) == Some(
                (obj_views(v@), j as int),
            ),
            None => p_obj_items(b@, i as int, Seq::empty()) is None,
        },
{
    proof {
        lemma_lit_lens();
    }
    let mut acc: Vec<Option<Vec<u8>>> = Vec::new();
    let mut cur: usize = i;
    proof {
        assert(obj_views(acc@) =~= Seq::<Option<Seq<u8>>>::empty());
    }
    loop
        invariant
            i <= cur,
            cur <= usize::MAX,
            p_obj_items(b@, i as int, Seq::empty()) == p_obj_items(b@, cur as int, obj_views(acc@)),
        decreases b@.len() + 1 - cur,
    {
        let ghost c0 = cur as int;
        let ghost a0 = obj_views(acc@);
        let l_ind = lit_item_indent();
        match eat_lit(b, cur, &l_ind) {
            Some(j) => {
                match parse_bytes_list(b, j) {
                    Some((bs, k)) => {
                        proof {
                            lemma_p_bytes_advance(b@, j as int);
                        }
                        let l_end = lit_item_end();
                        match eat_lit(b, k, &l_end) {
                            Some(m) => {
                                if bs.len() == 0 {
                                    acc.push(Option::None);
                                    proof {
                                        assert(obj_views(acc@) =~= a0.push(Option::None));
                                    }
                                } else {
                                    let ghost bsv = bs@;
                                    acc.push(Some(bs));
                                    proof {
                                        assert(obj_views(acc@) =~= a0.push(Some(bsv)));
                                    }
                                }
                                cur = m;
                                proof {
                                    assert(p_obj_items(b@, c0, a0) == p_obj_items(
                                        b@,
                                        cur as int,
                                        obj_views(acc@),
                                    ));
                                }
                            },
                            None => {
                                return None;
                            },
                        }
                    },
                    None => {
                        return None;
                    },
                }
            },
            None => {
                let l_close = lit_objects_close();
                match eat_lit(b, cur, &l_close) {
                    Some(j) => {
                        proof {
                            assert(p_obj_items(b@, c0, a0) == Some((a0, j as int)));
                        }
                        return Some((acc, j));
                    },
                    None => {
                        return None;
                    },
                }
            },
        }
    }
}

/// Parse the prop items of one voxel.
#[verifier::loop_isolation(false)]
fn parse_prop_items(b: &[u8], i: usize) -> (r: Option<(Vec<Vec<u8>>, usize)>)
    ensures
        match r {
            Some((v, j)) => p_prop_items(b@, i as int, Seq::empty()) == Some(
                (prop_views(v@), j as int),
            ),
            None => p_prop_items(b@, i as int, Seq::empty()) is None,
        },
{
    proof {
        lemma_lit_lens();
    }
    let mut acc: Vec<Vec<u8>> = Vec::new();
    let mut cur: usize = i;
    proof {
        assert(prop_views(acc@) =~= Seq::<Seq<u8>>::empty());
    }
    loop
        invariant
            i <= cur,
            cur <= usize::MAX,
            p_prop_items(b@, i as int, Seq::empty()) == p_prop_items(
                b@,
                cur as int,
                prop_views(acc@),
            ),
        decreases b@.len() + 1 - cur,
    {
        let ghost c0 = cur as int;
        let ghost a0 = prop_views(acc@);
        let l_ind = lit_item_indent();
        match eat_lit(b, cur, &l_ind) {
            Some(j) => {
                match parse_bytes_list(b, j) {
                    Some((bs, k)) => {
                        proof {
                            lemma_p_bytes_advance(b@, j as int);
                        }
                        let l_end = lit_item_end();
                        match eat_lit(b, k, &l_end) {
                            Some(m) => {
                                let ghost bsv = bs@;
                                acc.push(bs);
                                cur = m;
                                proof {
                                    assert(prop_views(acc@) =~= a0.push(bsv));
                                    assert(p_prop_items(b@, c0, a0) == p_prop_items(
                                        b@,
                                        cur as int,
                                        prop_views(acc@),
                                    ));
                                }
                            },
                            None => {
                                return None;
                            },
                        }
                    },
                    None => {
                        return None;
                    },
                }
            },
            None => {
                let l_close = lit_props_close();
                match eat_lit(b, cur, &l_close) {
                    Some(j) => {
                        proof {
                            assert(p_prop_items(b@, c0, a0) == Some((a0, j as int)));
                        }
                        return Some((acc, j));
                    },
                    None => {
                        return None;
                    },
                }
            },
        }
    }
}

/// Parse one voxel entry.
fn parse_voxel(b: &[u8], i: usize) -> (r: Option<(Voxel, usize)>)
    ensures
        match r {
            Some((v, j)) => p_voxel_t(b@, i as int) == Some((v@, j as int)),
            None => p_voxel_t(b@, i as int) is None,
        },
{
    let l_open = lit_entry_open();
    let j = match eat_lit(b, i, &l_open) {
        Some(j) => j,
        None => {
            return None;
        },
    };
    let l_onone = lit_objects_none();
    let objres: Option<(Vec<Option<Vec<u8>>>, usize)> = match eat_lit(b, j, &l_onone) {
        Some(k) => Some((Vec::new(), k)),
        None => {
            let l_oopen = lit_objects_open();
            match eat_lit(b, j, &l_oopen) {
                Some(k) => parse_obj_items(b, k),
                None => None,
            }
        },
    };
    let (objects, k2) = match objres {
        Some(x) => x,
        None => {
            return None;
        },
    };
    let l_pnone = lit_props_none();
    let propres: Option<(Vec<Vec<u8>>, usize)> = match eat_lit(b, k2, &l_pnone) {
        Some(m) => Some((Vec::new(), m)),
        None => {
            let l_popen = lit_props_open();
            match eat_lit(b, k2, &l_popen) {
                Some(m) => parse_prop_items(b, m),
                None => None,
            }
        },
    };
    let (props, m2) = match propres {
        Some(x) => x,
        None => {
            return None;
        },
    };
    let l_close = lit_entry_close();
    match eat_lit(b, m2, &l_close) {
        Some(e) => {
            let v = Voxel { objects, props };
            proof {
                assert(v@.objects =~= obj_views(v.objects@));
                assert(v@.props =~= prop_views(v.props@));
                assert(obj_views(Seq::<Option<Vec<u8>>>::empty()) =~= Seq::<
                    Option<Seq<u8>>,
                >::empty());
                assert(prop_views(Seq::<Vec<u8>>::empty()) =~= Seq::<Seq<u8>>::empty());
                assert(p_voxel_t(b@, i as int) matches Some(pv) && pv.0 =~= v@ && pv.1 == e as int);
            }
            Some((v, e))
        },
        None => None,
    }
}

/// Parse voxel entries for as long as one opens.
#[verifier::loop_isolation(false)]
fn parse_voxel_items(b: &[u8], i: usize) -> (r: Option<(Vec<Voxel>, usize)>)
    ensures
        match r {
            Some((v, j)) => p_voxel_items(b@, i as int, Seq::empty()) == Some(
                (crate::level::views_of(v@), j as int),
            ),
            None => p_voxel_items(b@, i as int, Seq::empty()) is None,
        },
{
    proof {
        lemma_lit_lens();
    }
    let mut acc: Vec<Voxel> = Vec::new();
    let mut cur: usize = i;
    proof {
        assert(crate::level::views_of(acc@) =~= Seq::<VoxelV>::empty());
    }
    loop
        invariant
            i <= cur,
            cur <= usize::MAX,
            p_voxel_items(b@, i as int, Seq::empty()) == p_voxel_items(
                b@,
                cur as int,
                crate::level::views_of(acc@),
            ),
        decreases b@.len() + 1 - cur,
    {
        let ghost c0 = cur as int;
        let ghost a0 = crate::level::views_of(acc@);
        let l_open = lit_entry_open();
        match eat_lit(b, cur, &l_open) {
            Some(_) => {
                match parse_voxel(b, cur) {
                    Some((v, j)) => {
                        proof {
                            lemma_p_voxel_advance(b@, cur as int);
                        }
                        let ghost vv = v@;
                        acc.push(v);
                        cur = j;
                        proof {
                            assert(crate::level::views_of(acc@) =~= a0.push(vv));
                            assert(p_voxel_items(b@, c0, a0) == p_voxel_items(
                                b@,
                                cur as int,
                                crate::level::views_of(acc@),
                            ));
                        }
                    },
                    None => {
                        return None;
                    },
                }
            },
            None => {
                proof {
                    assert(p_voxel_items(b@, c0, a0) == Some((a0, c0)));
                }
                return Some((acc, cur));
            },
        }
    }
}

/// Parse the `voxels:` mapping.
fn parse_voxels_section(b: &[u8], i: usize) -> (r: Option<(VoxelList, usize)>)
    ensures
        match r {
            Some((v, j)) => p_voxels_t(b@, i as int) == Some((v@, j as int)),
            None => p_voxels_t(b@, i as int) is None,
        },
{
    let l1 = lit_voxels_hdr();
    let a1 = match eat_lit(b, i, &l1) {
        Some(x) => x,
        None => {
            return None;
        },
    };
    let l2 = lit_start_pos();
    let a2 = match eat_lit(b, a1, &l2) {
        Some(x) => x,
        None => {
            return None;
        },
    };
    let (sx, a3) = match parse_int(b, a2) {
        Some(x) => x,
        None => {
            return None;
        },
    };
    if !(-0x80000000i64 <= sx && sx <= 0x7FFFFFFFi64) {
        return None;
    }
    let l3 = lit_comma_y();
    let a4 = match eat_lit(b, a3, &l3) {
        Some(x) => x,
        None => {
            return None;
        },
    };
    let (sy, a5) = match parse_int(b, a4) {
        Some(x) => x,
        None => {
            return None;
        },
    };
    if !(-0x80000000i64 <= sy && sy <= 0x7FFFFFFFi64) {
        return None;
    }
    let l4 = lit_comma_z();
    let a6 = match eat_lit(b, a5, &l4) {
        Some(x) => x,
        None => {
            return None;
        },
    };
    let (sz, a7) = match parse_int(b, a6) {
        Some(x) => x,
        None => {
            return None;
        },
    };
    if !(-0x80000000i64 <= sz && sz <= 0x7FFFFFFFi64) {
        return None;
    }
    let l5 = lit_close_map();
    let a8 = match eat_lit(b, a7, &l5) {
        Some(x) => x,
        None => {
            return None;
        },
    };
    let l6 = lit_end_pos();
    let a9 = match eat_lit(b, a8, &l6) {
        Some(x) => x,
        None => {
            return None;
        },
    };
    let (ex, a10) = match parse_int(b, a9) {
        Some(x) => x,
        None => {
            return None;
        },
    };
    if !(-0x80000000i64 <= ex && ex <= 0x7FFFFFFFi64) {
        return None;
    }
    let l7 = lit_comma_y();
    let a11 = match eat_lit(b, a10, &l7) {
        Some(x) => x,
        None => {
            return None;
        },
    };
    let (ey, a12) = match parse_int(b, a11) {
        Some(x) => x,
        None => {
            return None;
        },
    };
    if !(-0x80000000i64 <= ey && ey <= 0x7FFFFFFFi64) {
        return None;
    }
    let l8 = lit_comma_z();
    let a13 = match eat_lit(b, a12, &l8) {
        Some(x) => x,
        None => {
            return None;
        },
    };
    let (ez, a14) = match parse_int(b, a13) {
        Some(x) => x,
        None => {
            return None;
        },
    };
    if !(-0x80000000i64 <= ez && ez <= 0x7FFFFFFFi64) {
        return None;
    }
    let l9 = lit_close_map();
    let a15 = match eat_lit(b, a14, &l9) {
        Some(x) => x,
        None => {
            return None;
        },
    };
    let l10 = lit_voxels_list();
    let a16 = match eat_lit(b, a15, &l10) {
        Some(x) => x,
        None => {
            return None;
        },
    };
    let (voxels, a17) = match parse_voxel_items(b, a16) {
        Some(x) => x,
        None => {
            return None;
        },
    };
    let vl = VoxelList {
        start_position: Vec3i { x: sx as i32, y: sy as i32, z: sz as i32 },
        end_position: Vec3i { x: ex as i32, y: ey as i32, z: ez as i32 },
        voxels,
    };
    proof {
        assert(vl@.voxels =~= crate::level::views_of(vl.voxels@));
        assert(p_voxels_t(b@, i as int) matches Some(pv) && pv.0 =~= vl@ && pv.1 == a17 as int);
    }
    Some((vl, a17))
}

/// A successful section-items parse stays inside the input and never
/// moves backwards.
pub proof fn lemma_p_section_items_advance(b: Seq<u8>, i: int, acc: Seq<CameraNodeSectionV>)
    requires
        0 <= i <= b.len(),
    ensures
        p_section_items(b, i, acc) matches Some(r) ==> i <= r.1 <= b.len(),
    decreases b.len() - i,
{
    lemma_lit_lens();
    if eat_lit_s(b, i, txt_section_entry()) is Some {
        match eat_lit_s(b, i, txt_section_entry()) {
            Some(j) => match p_int(b, j) {
                Some((tag, k)) => if 0 <= tag <= 255 {
                    lemma_p_int_advance(b, j);
                    match eat_lit_s(b, k, txt_section_bytes()) {
                        Some(m) => match p_bytes(b, m) {
                            Some((bs, e)) => {
                                lemma_p_bytes_advance(b, m);
                                match eat_lit_s(b, e, txt_close_map()) {
                                    Some(f) => if i < f <= b.len() {
                                        lemma_p_section_items_advance(
                                            b,
                                            f,
                                            acc.push(
                                                CameraNodeSectionV { tag: tag as u8, bytes: bs },
                                            ),
                                        );
                                    },
                                    None => {},
                                }
                            },
                            None => {},
                        },
                        None => {},
                    }
                } else {
                },
                None => {},
            },
            None => {},
        }
    }
}

/// Parse section entries for as long as one opens.
#[verifier::loop_isolation(false)]
fn parse_section_items(b: &[u8], i: usize) -> (r: Option<(Vec<CameraNodeSection>, usize)>)
    ensures
        match r {
            Some((v, j)) => p_section_items(b@, i as int, Seq::empty()) == Some(
                (section_views(v@), j as int),
            ),
            None => p_section_items(b@, i as int, Seq::empty()) is None,
        },
{
    proof {
        lemma_lit_lens();
    }
    let mut acc: Vec<CameraNodeSection> = Vec::new();
    let mut cur: usize = i;
    proof {
        assert(section_views(acc@) =~= Seq::<CameraNodeSectionV>::empty());
    }
    loop
        invariant
            i <= cur,
            cur <= usize::MAX,
            p_section_items(b@, i as int, Seq::empty()) == p_section_items(
                b@,
                cur as int,
                section_views(acc@),
            ),
        decreases b@.len() + 1 - cur,
    {
        let ghost c0 = cur as int;
        let ghost a0 = section_views(acc@);
        let l_ent = lit_section_entry();
        match eat_lit(b, cur, &l_ent) {
            Some(j) => {
                let (tag, k) = match parse_int(b, j) {
                    Some(x) => x,
                    None => {
                        return None;
                    },
                };
                if !(0 <= tag && tag <= 255) {
                    return None;
                }
                proof {
                    lemma_p_int_advance(b@, j as int);
                }
                let l_b = lit_section_bytes();
                let m = match eat_lit(b, k, &l_b) {
                    Some(x) => x,
                    None => {
                        return None;
                    },
                };
                let (bs, e) = match parse_bytes_list(b, m) {
                    Some(x) => x,
                    None => {
                        return None;
                    },
                };
                proof {
                    lemma_p_bytes_advance(b@, m as int);
                }
                let l_c = lit_close_map();
                let f = match eat_lit(b, e, &l_c) {
                    Some(x) => x,
                    None => {
                        return None;
                    },
                };
                let ghost bsv = bs@;
                acc.push(CameraNodeSection { tag: tag as u8, bytes: bs });
                cur = f;
                proof {
                    assert(section_views(acc@) =~= a0.push(
                        CameraNodeSectionV { tag: tag as u8, bytes: bsv },
                    ));
                    assert(p_section_items(b@, c0, a0) == p_section_items(
                        b@,
                        cur as int,
                        section_views(acc@),
                    ));
                }
            },
            None => {
                proof {
                    assert(p_section_items(b@, c0, a0) == Some((a0, c0)));
                }
                return Some((acc, cur));
            },
        }
    }
}

/// Parse one camera entry.
fn parse_camera(b: &[u8], i: usize) -> (r: Option<(CameraNode, usize)>)
    ensures
        match r {
            Some((v, j)) => p_camera_t(b@, i as int) == Some((v@, j as int)),
            None => p_camera_t(b@, i as int) is None,
        },
{
    let l1 = lit_camera_entry();
    let a1 = match eat_lit(b, i, &l1) {
        Some(x) => x,
        None => {
            return None;
        },
    };
    let (idx, a2) = match parse_int(b, a1) {
        Some(x) => x,
        None => {
            return None;
        },
    };
    if !(-0x8000i64 <= idx && idx <= 0x7FFFi64) {
        return None;
    }
    let l2 = lit_camera_type();
    let a3 = match eat_lit(b, a2, &l2) {
        Some(x) => x,
        None => {
            return None;
        },
    };
    let (t, a4) = match parse_int(b, a3) {
        Some(x) => x,
        None => {
            return None;
        },
    };
    if !(0 <= t && t <= 4) {
        return None;
    }
    let l3 = lit_newline();
    let a5 = match eat_lit(b, a4, &l3) {
        Some(x) => x,
        None => {
            return None;
        },
    };
    let l4 = lit_sections_none();
    let secres: Option<(Vec<CameraNodeSection>, usize)> = match eat_lit(b, a5, &l4) {
        Some(a6) => Some((Vec::new(), a6)),
        None => {
            let l5 = lit_sections_hdr();
            match eat_lit(b, a5, &l5) {
                Some(a6) => parse_section_items(b, a6),
                None => None,
            }
        },
    };
    let (sections, a7) = match secres {
        Some(x) => x,
        None => {
            return None;
        },
    };
    let n = CameraNode { index: idx as i16, camera_type: t as u8, sections };
    proof {
        assert(n@.sections =~= section_views(n.sections@));
        assert(section_views(Seq::<CameraNodeSection>::empty()) =~= Seq::<
            CameraNodeSectionV,
        >::empty());
        assert(p_camera_t(b@, i as int) matches Some(pv) && pv.0 =~= n@ && pv.1 == a7 as int);
    }
    Some((n, a7))
}

/// A successful camera parse moves the position forward.
pub proof fn lemma_p_camera_advance(b: Seq<u8>, i: int)
    ensures
        p_camera_t(b, i) matches Some(r) ==> i < r.1 <= b.len(),
{
    lemma_lit_lens();
    match eat_lit_s(b, i, txt_camera_entry()) {
        Some(a1) => match p_int(b, a1) {
            Some((idx, a2)) => if -0x8000 <= idx <= 0x7FFF {
                lemma_p_int_advance(b, a1);
                match eat_lit_s(b, a2, txt_camera_type()) {
                    Some(a3) => match p_int(b, a3) {
                        Some((t, a4)) => if 0 <= t <= 4 {
                            lemma_p_int_advance(b, a3);
                            match eat_lit_s(b, a4, txt_newline()) {
                                Some(a5) => {
                                    match eat_lit_s(b, a5, txt_sections_none()) {
                                        Some(_) => {},
                                        None => match eat_lit_s(b, a5, txt_sections_hdr()) {
                                            Some(a6) => {
                                                lemma_p_section_items_advance(
                                                    b,
                                                    a6,
                                                    Seq::empty(),
                                                );
                                            },
                                            None => {},
                                        },
                                    }
                                },
                                None => {},
                            }
                        } else {
                        },
                        None => {},
                    },
                    None => {},
                }
            } else {
            },
            None => {},
        },
        None => {},
    }
}

/// A successful digit scan stays inside the input and never moves
/// backwards.
pub proof fn lemma_scan_advance(b: Seq<u8>, i: int, acc: nat)
    requires
        0 <= i <= b.len(),
    ensures
        scan_digits(b, i, acc) matches Some(r) ==> i <= r.1 <= b.len(),
    decreases b.len() - i,
{
    if 0 <= i < b.len() && is_digit(b[i]) {
        if !(acc * 10 + (b[i] - 0x30) > 0xFFFFFFFF) {
            lemma_scan_advance(b, i + 1, (acc * 10 + (b[i] - 0x30)) as nat);
        }
    }
}

/// A successful unsigned parse moves the position forward.
pub proof fn lemma_p_uint_advance(b: Seq<u8>, i: int)
    ensures
        p_uint(b, i) matches Some(r) ==> i < r.1 <= b.len(),
{
    if 0 <= i < b.len() && is_digit(b[i]) {
        lemma_scan_advance(b, i + 1, (b[i] - 0x30) as nat);
    }
}

/// A successful integer parse moves the position forward.
pub proof fn lemma_p_int_advance(b: Seq<u8>, i: int)
    ensures
        p_int(b, i) matches Some(r) ==> i < r.1 <= b.len(),
{
    if 0 <= i < b.len() && b[i] == 0x2D {
        lemma_p_uint_advance(b, i + 1);
    } else {
        lemma_p_uint_advance(b, i);
    }
}

/// Parse camera entries for as long as one opens.
#[verifier::loop_isolation(false)]
fn parse_camera_items(b: &[u8], i: usize) -> (r: Option<(Vec<CameraNode>, usize)>)
    ensures
        match r {
            Some((v, j)) => p_camera_items(b@, i as int, Seq::empty()) == Some(
                (camera_views(v@), j as int),
            ),
            None => p_camera_items(b@, i as int, Seq::empty()) is None,
        },
{
    proof {
        lemma_lit_lens();
    }
    let mut acc: Vec<CameraNode> = Vec::new();
    let mut cur: usize = i;
    proof {
        assert(camera_views(acc@) =~= Seq::<CameraNodeV>::empty());
    }
    loop
        invariant
            i <= cur,
            cur <= usize::MAX,
            p_camera_items(b@, i as int, Seq::empty()) == p_camera_items(
                b@,
                cur as int,
                camera_views(acc@),
            ),
        decreases b@.len() + 1 - cur,
    {
        let ghost c0 = cur as int;
        let ghost a0 = camera_views(acc@);
        let l_ent = lit_camera_entry();
        match eat_lit(b, cur, &l_ent) {
            Some(_) => {
                match parse_camera(b, cur) {
                    Some((n, j)) => {
                        proof {
                            lemma_p_camera_advance(b@, cur as int);
                        }
                        let ghost nv = n@;
                        acc.push(n);
                        cur = j;
                        proof {
                            assert(camera_views(acc@) =~= a0.push(nv));
                            assert(p_camera_items(b@, c0, a0) == p_camera_items(
                                b@,
                                cur as int,
                                camera_views(acc@),
                            ));
                        }
                    },
                    None => {
                        return None;
                    },
                }
            },
            None => {
                proof {
                    assert(p_camera_items(b@, c0, a0) == Some((a0, c0)));
                }
                return Some((acc, cur));
            },
        }
    }
}

/// Parse one lighting entry.
fn parse_lighting(b: &[u8], i: usize) -> (r: Option<(LightingNode, usize)>)
    ensures
        match r {
            Some((v, j)) => p_lighting_t(b@, i as int) == Some((v, j as int)),
            None => p_lighting_t(b@, i as int) is None,
        },
{
    let l1 = lit_entry_open();
    let a1 = match eat_lit(b, i, &l1) {
        Some(x) => x,
        None => {
            return None;
        },
    };
    let l2 = lit_light_pos();
    let a2 = match eat_lit(b, a1, &l2) {
        Some(x) => x,
        None => {
            return None;
        },
    };
    let (px, a3) = match parse_bytes_list(b, a2) {
        Some(x) => x,
        None => {
            return None;
        },
    };
    if px.len() != 4 {
        return None;
    }
    let l3 = lit_comma_y();
    let a4 = match eat_lit(b, a3, &l3) {
        Some(x) => x,
        None => {
            return None;
        },
    };
    let (py, a5) = match parse_bytes_list(b, a4) {
        Some(x) => x,
        None => {
            return None;
        },
    };
    if py.len() != 4 {
        return None;
    }
    let l4 = lit_comma_z();
    let a6 = match eat_lit(b, a5, &l4) {
        Some(x) => x,
        None => {
            return None;
        },
    };
    let (pz, a7) = match parse_bytes_list(b, a6) {
        Some(x) => x,
        None => {
            return None;
        },
    };
    if pz.len() != 4 {
        return None;
    }
    let l5 = lit_close_map_comma();
    let a8 = match eat_lit(b, a7, &l5) {
        Some(x) => x,
        None => {
            return None;
        },
    };
    let l6 = lit_flags_open();
    let a9 = match eat_lit(b, a8, &l6) {
        Some(x) => x,
        None => {
            return None;
        },
    };
    let (fx, a10) = match parse_bytes_list(b, a9) {
        Some(x) => x,
        None => {
            return None;
        },
    };
    if fx.len() != 4 {
        return None;
    }
    let l7 = lit_comma_sp();
    let a11 = match eat_lit(b, a10, &l7) {
        Some(x) => x,
        None => {
            return None;
        },
    };
    let (fy, a12) = match parse_bytes_list(b, a11) {
        Some(x) => x,
        None => {
            return None;
        },
    };
    if fy.len() != 4 {
        return None;
    }
    let l8 = lit_flags_close();
    let a13 = match eat_lit(b, a12, &l8) {
        Some(x) => x,
        None => {
            return None;
        },
    };
    let l9 = lit_rgb_open();
    let a14 = match eat_lit(b, a13, &l9) {
        Some(x) => x,
        None => {
            return None;
        },
    };
    let (r8, a15) = match parse_hex2(b, a14) {
        Some(x) => x,
        None => {
            return None;
        },
    };
    let (g8, a16) = match parse_hex2(b, a15) {
        Some(x) => x,
        None => {
            return None;
        },
    };
    let (b8, a17) = match parse_hex2(b, a16) {
        Some(x) => x,
        None => {
            return None;
        },
    };
    let l10 = lit_rgb_close();
    let a18 = match eat_lit(b, a17, &l10) {
        Some(x) => x,
        None => {
            return None;
        },
    };
    let node = LightingNode {
        position: Vec3Bits {
            x: (px[0] as u32) * 0x1000000 + (px[1] as u32) * 0x10000 + (px[2] as u32) * 0x100 + (
            px[3] as u32),
            y: (py[0] as u32) * 0x1000000 + (py[1] as u32) * 0x10000 + (py[2] as u32) * 0x100 + (
            py[3] as u32),
            z: (pz[0] as u32) * 0x1000000 + (pz[1] as u32) * 0x10000 + (pz[2] as u32) * 0x100 + (
            pz[3] as u32),
        },
        flags: Vec2Bits {
            x: (fx[0] as u32) * 0x1000000 + (fx[1] as u32) * 0x10000 + (fx[2] as u32) * 0x100 + (
            fx[3] as u32),
            y: (fy[0] as u32) * 0x1000000 + (fy[1] as u32) * 0x10000 + (fy[2] as u32) * 0x100 + (
            fy[3] as u32),
        },
        rgb: Rgb { r: r8, g: g8, b: b8 },
    };
    Some((node, a18))
}

/// A successful parse of the tail of a lighting entry moves the
/// position forward.
pub proof fn lemma_p_lighting_rest_advance(b: Seq<u8>, i: int, px: Seq<u8>, py: Seq<u8>, pz: Seq<u8>)
    ensures
        p_lighting_rest(b, i, px, py, pz) matches Some(r) ==> i < r.1 <= b.len(),
{
    lemma_lit_lens();
    match eat_lit_s(b, i, txt_close_map_comma()) {
        Some(a1) => match eat_lit_s(b, a1, txt_flags_open()) {
            Some(a2) => {
                lemma_p_bytes_advance(b, a2);
                match p_bytes(b, a2) {
                    Some((fx, a3)) => if fx.len() == 4 {
                        match eat_lit_s(b, a3, txt_comma_sp()) {
                            Some(a4) => {
                                lemma_p_bytes_advance(b, a4);
                            },
                            None => {},
                        }
                    } else {
                    },
                    None => {},
                }
            },
            None => {},
        },
        None => {},
    }
}

/// A successful lighting parse moves the position forward.
pub proof fn lemma_p_lighting_advance(b: Seq<u8>, i: int)
    ensures
        p_lighting_t(b, i) matches Some(r) ==> i < r.1 <= b.len(),
{
    lemma_lit_lens();
    match eat_lit_s(b, i, txt_entry_open()) {
        Some(a1) => match eat_lit_s(b, a1, txt_light_pos()) {
            Some(a2) => {
                lemma_p_bytes_advance(b, a2);
                match p_bytes(b, a2) {
                    Some((px, a3)) => if px.len() == 4 {
                        match eat_lit_s(b, a3, txt_comma_y()) {
                            Some(a4) => {
                                lemma_p_bytes_advance(b, a4);
                                match p_bytes(b, a4) {
                                    Some((py, a5)) => if py.len() == 4 {
                                        match eat_lit_s(b, a5, txt_comma_z()) {
                                            Some(a6) => {
                                                lemma_p_bytes_advance(b, a6);
                                                match p_bytes(b, a6) {
                                                    Some((pz, a7)) => if pz.len() == 4 {
                                                        lemma_p_lighting_rest_advance(
                                                            b,
                                                            a7,
                                                            px,
                                                            py,
                                                            pz,
                                                        );
                                                    } else {
                                                    },
                                                    None => {},
                                                }
                                            },
                                            None => {},
                                        }
                                    } else {
                                    },
                                    None => {},
                                }
                            },
                            None => {},
                        }
                    } else {
                    },
                    None => {},
                }
            },
            None => {},
        },
        None => {},
    }
}

/// Parse lighting entries for as long as one opens.
#[verifier::loop_isolation(false)]
fn parse_lighting_items(b: &[u8], i: usize) -> (r: Option<(Vec<LightingNode>, usize)>)
    ensures
        match r {
            Some((v, j)) => p_lighting_items(b@, i as int, Seq::empty()) == Some((v@, j as int)),
            None => p_lighting_items(b@, i as int, Seq::empty()) is None,
        },
{
    proof {
        lemma_lit_lens();
    }
    let mut acc: Vec<LightingNode> = Vec::new();
    let mut cur: usize = i;
    loop
        invariant
            i <= cur,
            cur <= usize::MAX,
            p_lighting_items(b@, i as int, Seq::empty()) == p_lighting_items(
                b@,
                cur as int,
                acc@,
            ),
        decreases b@.len() + 1 - cur,
    {
        let ghost c0 = cur as int;
        let ghost a0 = acc@;
        let l_ent = lit_entry_open();
        match eat_lit(b, cur, &l_ent) {
            Some(_) => {
                match parse_lighting(b, cur) {
                    Some((n, j)) => {
                        proof {
                            lemma_p_lighting_advance(b@, cur as int);
                        }
                        acc.push(n);
                        cur = j;
                        proof {
                            assert(p_lighting_items(b@, c0, a0) == p_lighting_items(
                                b@,
                                cur as int,
                                acc@,
                            ));
                        }
                    },
                    None => {
                        return None;
                    },
                }
            },
            None => {
                proof {
                    assert(p_lighting_items(b@, c0, a0) == Some((a0, c0)));
                }
                return Some((acc, cur));
            },
        }
    }
}

impl LevelSetup {
    /// Parse a whole textual document back into a level setup.
    /// Succeeds exactly when the mathematical reader accepts the input,
    /// and then returns exactly its value, which satisfies the
    /// structural invariants.
    pub fn from_yaml(b: &[u8]) -> (res: Result<LevelSetup, ParseError>)
        ensures
            res is Ok <==> p_level_t(b@) is Some,
            res matches Ok(v) ==> Some(v@) == p_level_t(b@) && crate::level::level_valid(v@),
    {
        let l1 = lit_doc_type();
        let a1 = match eat_lit(b, 0, &l1) {
            Some(x) => x,
            None => {
                return Err(ParseError::new(Phase::Document, ErrorKind::UnexpectedByte, 0, 0));
            },
        };
        let (vl, a2) = match parse_voxels_section(b, a1) {
            Some(x) => x,
            None => {
                return Err(ParseError::new(Phase::Voxels, ErrorKind::UnexpectedByte, a1, 0));
            },
        };
        let (cams, a3) = match eat_lit(b, a2, &lit_cameras_none()) {
            Some(j) => (Vec::new(), j),
            None => {
                match eat_lit(b, a2, &lit_cameras_hdr()) {
                    Some(j) => match parse_camera_items(b, j) {
                        Some(x) => x,
                        None => {
                            return Err(
                                ParseError::new(
                                    Phase::Cameras,
                                    ErrorKind::UnexpectedByte,
                                    a2,
                                    0,
                                ),
                            );
                        },
                    },
                    None => {
                        return Err(
                            ParseError::new(Phase::Cameras, ErrorKind::UnexpectedByte, a2, 0),
                        );
                    },
                }
            },
        };
        let (lights, a4) = match eat_lit(b, a3, &lit_lightings_none()) {
            Some(j) => (Vec::new(), j),
            None => {
                match eat_lit(b, a3, &lit_lightings_hdr()) {
                    Some(j) => match parse_lighting_items(b, j) {
                        Some(x) => x,
                        None => {
                            return Err(
                                ParseError::new(
                                    Phase::Lightings,
                                    ErrorKind::UnexpectedByte,
                                    a3,
                                    0,
                                ),
                            );
                        },
                    },
                    None => {
                        return Err(
                            ParseError::new(Phase::Lightings, ErrorKind::UnexpectedByte, a3, 0),
                        );
                    },
                }
            },
        };
        if a4 != b.len() {
            return Err(ParseError::new(Phase::Document, ErrorKind::UnexpectedByte, a4, 0));
        }
        let ls = LevelSetup {
            voxel_list: vl,
            camera_nodes: CameraNodeList { nodes: cams },
            lighting_nodes: LightingNodeList { nodes: lights },
        };
        proof {
            assert(ls@.camera_nodes =~= camera_views(ls.camera_nodes.nodes@));
            assert(camera_views(Seq::<CameraNode>::empty()) =~= Seq::<CameraNodeV>::empty());
        }
        if !ls.is_valid() {
            proof {
                assert(p_level_t(b@) is None);
            }
            return Err(
                ParseError::new(Phase::Document, ErrorKind::InvariantViolation, 0, 0),
            );
        }
        proof {
            assert(p_level_t(b@) matches Some(pv) && pv =~= ls@);
        }
        Ok(ls)
    }
}

} // verus!
