//! The level-setup data model and its mathematical codec.
//!
//! A level setup owns exactly one voxel list, one camera node list and one
//! lighting node list, in that fixed order in both the binary and the
//! textual form.  This module defines the in-memory types, their
//! specification views, validity predicates, and the specification-level
//! encode and decode functions that the executable codec is proved
//! against.
//!
//! Lighting nodes carry 32-bit floating point fields on disk; in memory
//! they are held as their exact big-endian bit patterns (`u32`), which is
//! what both codecs need and preserves every bit pattern, non-finite
//! values included.

use vstd::prelude::*;
use crate::bytes::{be16, be32, be_i16, be_i32, i16v, i32v, u16v, u32v};

verus! {

// ---------------------------------------------------------------------
// In-memory types
// ---------------------------------------------------------------------

/// A triple of signed 32-bit lattice coordinates.
#[derive(Clone, Copy, Debug, PartialEq, Eq, Structural)]
pub struct Vec3i {
    pub x: i32,
    pub y: i32,
    pub z: i32,
}

/// A triple of 32-bit float bit patterns.
#[derive(Clone, Copy, Debug, PartialEq, Eq, Structural)]
pub struct Vec3Bits {
    pub x: u32,
    pub y: u32,
    pub z: u32,
}

/// A pair of 32-bit float bit patterns.
#[derive(Clone, Copy, Debug, PartialEq, Eq, Structural)]
pub struct Vec2Bits {
    pub x: u32,
    pub y: u32,
}

/// An 8-bit color triple.
#[derive(Clone, Copy, Debug, PartialEq, Eq, Structural)]
pub struct Rgb {
    pub r: u8,
    pub g: u8,
    pub b: u8,
}

/// One lattice cell: an ordered list of optional 20-byte object records
/// (a `None` slot is a position that was declared but carried no payload)
/// and an ordered list of 16-byte prop records.
#[derive(Clone, Debug)]
pub struct Voxel {
    pub objects: Vec<Option<Vec<u8>>>,
    pub props: Vec<Vec<u8>>,
}

/// A 3D axis-aligned integer lattice together with one voxel per lattice
/// point, in x-outer, y-middle, z-inner order.
#[derive(Clone, Debug)]
pub struct VoxelList {
    pub start_position: Vec3i,
    pub end_position: Vec3i,
    pub voxels: Vec<Voxel>,
}

/// A tagged payload attached to a camera node; the payload length is a
/// function of the node type and the tag, and the bytes are preserved
/// verbatim.
#[derive(Clone, Debug)]
pub struct CameraNodeSection {
    pub tag: u8,
    pub bytes: Vec<u8>,
}

/// One camera waypoint: a signed 16-bit index, a type in `0..=4`, and the
/// node's sections (none when the type is zero).
#[derive(Clone, Debug)]
pub struct CameraNode {
    pub index: i16,
    pub camera_type: u8,
    pub sections: Vec<CameraNodeSection>,
}

/// The camera waypoint graph.
#[derive(Clone, Debug)]
pub struct CameraNodeList {
    pub nodes: Vec<CameraNode>,
}

/// One lighting probe.  `position` and `flags` hold the big-endian bit
/// patterns of the on-disk 32-bit floats.
#[derive(Clone, Copy, Debug, PartialEq, Eq, Structural)]
pub struct LightingNode {
    pub position: Vec3Bits,
    pub flags: Vec2Bits,
    pub rgb: Rgb,
}

/// The lighting probes.
#[derive(Clone, Debug)]
pub struct LightingNodeList {
    pub nodes: Vec<LightingNode>,
}

/// A decoded level setup.
#[derive(Clone, Debug)]
pub struct LevelSetup {
    pub voxel_list: VoxelList,
    pub camera_nodes: CameraNodeList,
    pub lighting_nodes: LightingNodeList,
}

// ---------------------------------------------------------------------
// Specification views
// ---------------------------------------------------------------------

/// Mathematical view of a voxel.
#[verifier::ext_equal]
pub struct VoxelV {
    pub objects: Seq<Option<Seq<u8>>>,
    pub props: Seq<Seq<u8>>,
}

/// Mathematical view of a voxel list.
#[verifier::ext_equal]
pub struct VoxelListV {
    pub start_position: Vec3i,
    pub end_position: Vec3i,
    pub voxels: Seq<VoxelV>,
}

/// Mathematical view of a camera section.
#[verifier::ext_equal]
pub struct CameraNodeSectionV {
    pub tag: u8,
    pub bytes: Seq<u8>,
}

/// Mathematical view of a camera node.
#[verifier::ext_equal]
pub struct CameraNodeV {
    pub index: i16,
    pub camera_type: u8,
    pub sections: Seq<CameraNodeSectionV>,
}

/// Mathematical view of a level setup.  Lighting nodes are plain values
/// already and stand for themselves.
#[verifier::ext_equal]
pub struct LevelSetupV {
    pub voxel_list: VoxelListV,
    pub camera_nodes: Seq<CameraNodeV>,
    pub lighting_nodes: Seq<LightingNode>,
}

impl View for Voxel {
    type V = VoxelV;

    open spec fn view(&self) -> VoxelV {
        VoxelV {
            objects: Seq::new(
                self.objects@.len(),
                |i: int|
                    match self.objects@[i] {
                        Some(b) => Some(b@),
                        None => None,
                    },
            ),
            props: Seq::new(self.props@.len(), |i: int| self.props@[i]@),
        }
    }
}

impl View for CameraNodeList {
    type V = Seq<CameraNodeV>;

    open spec fn view(&self) -> Seq<CameraNodeV> {
        Seq::new(self.nodes@.len(), |i: int| self.nodes@[i]@)
    }
}

impl View for LightingNodeList {
    type V = Seq<LightingNode>;

    open spec fn view(&self) -> Seq<LightingNode> {
        self.nodes@
    }
}

impl View for VoxelList {
    type V = VoxelListV;

    open spec fn view(&self) -> VoxelListV {
        VoxelListV {
            start_position: self.start_position,
            end_position: self.end_position,
            voxels: Seq::new(self.voxels@.len(), |i: int| self.voxels@[i]@),
        }
    }
}

impl View for CameraNodeSection {
    type V = CameraNodeSectionV;

    open spec fn view(&self) -> CameraNodeSectionV {
        CameraNodeSectionV { tag: self.tag, bytes: self.bytes@ }
    }
}

impl View for CameraNode {
    type V = CameraNodeV;

    open spec fn view(&self) -> CameraNodeV {
        CameraNodeV {
            index: self.index,
            camera_type: self.camera_type,
            sections: Seq::new(self.sections@.len(), |i: int| self.sections@[i]@),
        }
    }
}

impl View for LevelSetup {
    type V = LevelSetupV;

    open spec fn view(&self) -> LevelSetupV {
        LevelSetupV {
            voxel_list: self.voxel_list@,
            camera_nodes: self.camera_nodes@,
            lighting_nodes: self.lighting_nodes@,
        }
    }
}

// ---------------------------------------------------------------------
// Validity
// ---------------------------------------------------------------------

/// The lattice volume: how many cells lie between `start` and `end`,
/// both inclusive, in all three dimensions.
pub open spec fn lattice_volume(s: Vec3i, e: Vec3i) -> int {
    (e.x - s.x + 1) * (e.y - s.y + 1) * (e.z - s.z + 1)
}

/// The object records that are present (the `Some` slots), in order.
pub open spec fn present_objects(s: Seq<Option<Seq<u8>>>) -> Seq<Seq<u8>>
    decreases s.len(),
{
    if s.len() == 0 {
        Seq::empty()
    } else {
        match s[0] {
            Some(b) => seq![b] + present_objects(s.drop_first()),
            None => present_objects(s.drop_first()),
        }
    }
}

/// Structural validity of one voxel: every present object record is 20
/// bytes and every prop record is 16 bytes.
pub open spec fn voxel_valid(v: VoxelV) -> bool {
    &&& forall|i: int|
        0 <= i < v.objects.len() ==> ((#[trigger] v.objects[i]) matches Some(b) ==> b.len()
            == 20)
    &&& forall|i: int| 0 <= i < v.props.len() ==> (#[trigger] v.props[i]).len() == 16
}

/// The per-voxel counts that the binary format stores in one byte.
pub open spec fn voxel_encodable(v: VoxelV) -> bool {
    &&& present_objects(v.objects).len() <= 255
    &&& v.props.len() <= 255
}

/// A voxel in the form the encoder itself produces: either every slot of
/// `objects` is present, or `objects` is exactly one empty slot.
pub open spec fn voxel_canonical(v: VoxelV) -> bool {
    ||| forall|i: int| 0 <= i < v.objects.len() ==> (#[trigger] v.objects[i]) is Some
    ||| v.objects == seq![Option::<Seq<u8>>::None]
}

/// The payload width that the on-disk format assigns to a section with
/// this tag under a camera node of this type, or `None` where the tag is
/// illegal there.  Tag zero always ends the section list and is never a
/// payload tag.
pub open spec fn section_len(t: u8, tag: u8) -> Option<int> {
    if t == 1 {
        if tag == 1 || tag == 4 {
            Some(12)
        } else if tag == 2 || tag == 3 {
            Some(8)
        } else if tag == 5 {
            Some(4)
        } else {
            None
        }
    } else if t == 2 {
        if tag == 1 || tag == 2 {
            Some(12)
        } else {
            None
        }
    } else if t == 3 {
        if tag == 1 || tag == 4 {
            Some(12)
        } else if tag == 2 || tag == 3 || tag == 6 {
            Some(8)
        } else if tag == 5 {
            Some(4)
        } else {
            None
        }
    } else if t == 4 {
        if tag == 1 {
            Some(4)
        } else {
            None
        }
    } else {
        None
    }
}

/// Structural validity of one camera node.
pub open spec fn camera_valid(n: CameraNodeV) -> bool {
    &&& n.camera_type <= 4
    &&& n.camera_type == 0 ==> n.sections.len() == 0
    &&& forall|i: int|
        0 <= i < n.sections.len() ==> section_len(n.camera_type, (#[trigger] n.sections[i]).tag)
            == Some(n.sections[i].bytes.len() as int)
}

/// Structural validity of a whole level setup, including the lattice
/// invariant: the voxel sequence length equals the lattice volume.
pub open spec fn level_valid(l: LevelSetupV) -> bool {
    &&& l.voxel_list.start_position.x <= l.voxel_list.end_position.x
    &&& l.voxel_list.start_position.y <= l.voxel_list.end_position.y
    &&& l.voxel_list.start_position.z <= l.voxel_list.end_position.z
    &&& l.voxel_list.voxels.len() == lattice_volume(
        l.voxel_list.start_position,
        l.voxel_list.end_position,
    )
    &&& forall|i: int| 0 <= i < l.voxel_list.voxels.len() ==> voxel_valid(
        #[trigger] l.voxel_list.voxels[i],
    )
    &&& forall|i: int| 0 <= i < l.camera_nodes.len() ==> camera_valid(#[trigger] l.camera_nodes[i])
}

/// Every per-voxel count fits in its one on-disk byte.
pub open spec fn level_encodable(l: LevelSetupV) -> bool {
    forall|i: int| 0 <= i < l.voxel_list.voxels.len() ==> voxel_encodable(
        #[trigger] l.voxel_list.voxels[i],
    )
}

/// Every voxel is in the encoder's own form.
pub open spec fn level_canonical(l: LevelSetupV) -> bool {
    forall|i: int| 0 <= i < l.voxel_list.voxels.len() ==> voxel_canonical(
        #[trigger] l.voxel_list.voxels[i],
    )
}

// ---------------------------------------------------------------------
// Specification encoder
// ---------------------------------------------------------------------

/// The object group of one voxel: omitted when the list is empty, else
/// one kind-0xA block holding every present record, whose gated payload
/// is omitted when no record is present.
pub open spec fn enc_obj_block(objects: Seq<Option<Seq<u8>>>) -> Seq<u8> {
    if objects.len() == 0 {
        Seq::empty()
    } else {
        let p = present_objects(objects);
        seq![3u8, 0x0Au8, p.len() as u8] + if p.len() == 0 {
            Seq::<u8>::empty()
        } else {
            seq![0x0Bu8] + p.flatten()
        }
    }
}

/// The prop group of one voxel: omitted when the list is empty.
pub open spec fn enc_prop_block(props: Seq<Seq<u8>>) -> Seq<u8> {
    if props.len() == 0 {
        Seq::empty()
    } else {
        seq![8u8, props.len() as u8, 9u8] + props.flatten()
    }
}

/// One voxel: its two groups followed by the tag-1 terminator.
pub open spec fn enc_voxel(v: VoxelV) -> Seq<u8> {
    enc_obj_block(v.objects) + enc_prop_block(v.props) + seq![1u8]
}

/// All voxels, in lattice order.
pub open spec fn enc_voxels(vs: Seq<VoxelV>) -> Seq<u8>
    decreases vs.len(),
{
    if vs.len() == 0 {
        Seq::empty()
    } else {
        enc_voxel(vs[0]) + enc_voxels(vs.drop_first())
    }
}

/// The voxel section: command 1, the 1-gated start triple, the bare end
/// triple, the voxels, and the trailing 0 gate.
pub open spec fn enc_voxel_list(vl: VoxelListV) -> Seq<u8> {
    seq![1u8, 1u8] + be_i32(vl.start_position.x) + be_i32(vl.start_position.y) + be_i32(
        vl.start_position.z,
    ) + be_i32(vl.end_position.x) + be_i32(vl.end_position.y) + be_i32(vl.end_position.z)
        + enc_voxels(vl.voxels) + seq![0u8]
}

/// One camera section: its tag, then its payload verbatim.
pub open spec fn enc_section(s: CameraNodeSectionV) -> Seq<u8> {
    seq![s.tag] + s.bytes
}

/// A camera node's sections, in order.
pub open spec fn enc_sections(ss: Seq<CameraNodeSectionV>) -> Seq<u8>
    decreases ss.len(),
{
    if ss.len() == 0 {
        Seq::empty()
    } else {
        enc_section(ss[0]) + enc_sections(ss.drop_first())
    }
}

/// One camera node: tag 1, the index, the 2-gated type, and, for typed
/// nodes, the sections closed by their 0 terminator.
pub open spec fn enc_camera(n: CameraNodeV) -> Seq<u8> {
    seq![1u8] + be_i16(n.index) + seq![2u8, n.camera_type] + if n.camera_type == 0 {
        Seq::<u8>::empty()
    } else {
        enc_sections(n.sections) + seq![0u8]
    }
}

/// The camera nodes, in order.
pub open spec fn enc_cameras(ns: Seq<CameraNodeV>) -> Seq<u8>
    decreases ns.len(),
{
    if ns.len() == 0 {
        Seq::empty()
    } else {
        enc_camera(ns[0]) + enc_cameras(ns.drop_first())
    }
}

/// The camera section: command 3, the nodes, the 0 terminator.
pub open spec fn enc_camera_list(ns: Seq<CameraNodeV>) -> Seq<u8> {
    seq![3u8] + enc_cameras(ns) + seq![0u8]
}

/// One lighting node: the 2-gated position floats, the 3-gated flag
/// floats, and the 4-gated words whose low bytes carry the color.
pub open spec fn enc_lighting(n: LightingNode) -> Seq<u8> {
    seq![1u8, 2u8] + be32(n.position.x) + be32(n.position.y) + be32(n.position.z) + seq![3u8]
        + be32(n.flags.x) + be32(n.flags.y) + seq![
        4u8,
        0u8,
        0u8,
        0u8,
        n.rgb.r,
        0u8,
        0u8,
        0u8,
        n.rgb.g,
        0u8,
        0u8,
        0u8,
        n.rgb.b,
    ]
}

/// The lighting nodes, in order.
pub open spec fn enc_lightings(ns: Seq<LightingNode>) -> Seq<u8>
    decreases ns.len(),
{
    if ns.len() == 0 {
        Seq::empty()
    } else {
        enc_lighting(ns[0]) + enc_lightings(ns.drop_first())
    }
}

/// The lighting section: command 4, the nodes, the 0 terminator.
pub open spec fn enc_lighting_list(ns: Seq<LightingNode>) -> Seq<u8> {
    seq![4u8] + enc_lightings(ns) + seq![0u8]
}

/// A whole level-setup file: the three sections in their fixed order,
/// closed by the command-0 end of file.
pub open spec fn enc_level(l: LevelSetupV) -> Seq<u8> {
    enc_voxel_list(l.voxel_list) + enc_camera_list(l.camera_nodes) + enc_lighting_list(
        l.lighting_nodes,
    ) + seq![0u8]
}

// ---------------------------------------------------------------------
// Specification decoder
// ---------------------------------------------------------------------

/// The `n` 20-byte object records stored from position `i`, each present.
pub open spec fn obj_chunks(b: Seq<u8>, i: int, n: int) -> Seq<Option<Seq<u8>>> {
    Seq::new(n as nat, |j: int| Some(b.subrange(i + 20 * j, i + 20 * (j + 1))))
}

/// The `n` 16-byte prop records stored from position `i`.
pub open spec fn prop_chunks(b: Seq<u8>, i: int, n: int) -> Seq<Seq<u8>> {
    Seq::new(n as nat, |j: int| b.subrange(i + 16 * j, i + 16 * (j + 1)))
}

/// Decode one voxel: a run of tagged blocks ended by tag 1.  `objects`
/// and `props` accumulate what earlier blocks of the same voxel yielded.
pub open spec fn dec_voxel(
    b: Seq<u8>,
    i: int,
    objects: Seq<Option<Seq<u8>>>,
    props: Seq<Seq<u8>>,
) -> Option<(VoxelV, int)>
    decreases b.len() - i,
{
    if i < 0 || i >= b.len() {
        None
    } else if b[i] == 1 {
        Some((VoxelV { objects, props }, i + 1))
    } else if b[i] == 3 {
        if i + 3 > b.len() {
            None
        } else {
            let kind = b[i + 1];
            let n = b[i + 2] as int;
            if kind != 0x6 && kind != 0x0A {
                None
            } else if n == 0 {
                dec_voxel(b, i + 3, objects.push(Option::None), props)
            } else if i + 4 + 20 * n > b.len() {
                None
            } else if b[i + 3] as int != kind as int + 1 {
                None
            } else {
                dec_voxel(b, i + 4 + 20 * n, objects + obj_chunks(b, i + 4, n), props)
            }
        }
    } else if b[i] == 8 {
        if i + 2 > b.len() {
            None
        } else {
            let n = b[i + 1] as int;
            if n == 0 {
                dec_voxel(b, i + 2, objects, props)
            } else if i + 3 + 16 * n > b.len() {
                None
            } else if b[i + 2] != 9 {
                None
            } else {
                dec_voxel(b, i + 3 + 16 * n, objects, props + prop_chunks(b, i + 3, n))
            }
        }
    } else {
        None
    }
}

/// Decode `n` voxels in a row.
pub open spec fn dec_voxels(b: Seq<u8>, i: int, n: nat, acc: Seq<VoxelV>) -> Option<
    (Seq<VoxelV>, int),
>
    decreases n,
{
    if n == 0 {
        Some((acc, i))
    } else {
        match dec_voxel(b, i, Seq::empty(), Seq::empty()) {
            Some((v, j)) => dec_voxels(b, j, (n - 1) as nat, acc.push(v)),
            None => None,
        }
    }
}

/// Decode the voxel section body (after its command byte): the 1-gated
/// start triple, the bare end triple, one voxel per lattice point, and
/// an optional trailing 0 gate.
pub open spec fn dec_voxel_list(b: Seq<u8>, i: int) -> Option<(VoxelListV, int)> {
    if i < 0 || i + 25 > b.len() || b[i] != 1 {
        None
    } else {
        let s = Vec3i {
            x: i32v(b[i + 1], b[i + 2], b[i + 3], b[i + 4]),
            y: i32v(b[i + 5], b[i + 6], b[i + 7], b[i + 8]),
            z: i32v(b[i + 9], b[i + 10], b[i + 11], b[i + 12]),
        };
        let e = Vec3i {
            x: i32v(b[i + 13], b[i + 14], b[i + 15], b[i + 16]),
            y: i32v(b[i + 17], b[i + 18], b[i + 19], b[i + 20]),
            z: i32v(b[i + 21], b[i + 22], b[i + 23], b[i + 24]),
        };
        if s.x > e.x || s.y > e.y || s.z > e.z {
            None
        } else {
            match dec_voxels(b, i + 25, lattice_volume(s, e) as nat, Seq::empty()) {
                Some((vs, j)) => {
                    let j2 = if 0 <= j < b.len() && b[j] == 0 {
                        j + 1
                    } else {
                        j
                    };
                    Some((VoxelListV { start_position: s, end_position: e, voxels: vs }, j2))
                },
                None => None,
            }
        }
    }
}

/// Decode a typed camera node's section run, ended by tag 0.
pub open spec fn dec_sections(b: Seq<u8>, i: int, t: u8, acc: Seq<CameraNodeSectionV>) -> Option<
    (Seq<CameraNodeSectionV>, int),
>
    decreases b.len() - i,
{
    if i < 0 || i >= b.len() {
        None
    } else if b[i] == 0 {
        Some((acc, i + 1))
    } else {
        match section_len(t, b[i]) {
            Some(len) => if i + 1 + len <= b.len() {
                dec_sections(
                    b,
                    i + 1 + len,
                    t,
                    acc.push(CameraNodeSectionV { tag: b[i], bytes: b.subrange(i + 1, i + 1 + len) }),
                )
            } else {
                None
            },
            None => None,
        }
    }
}

/// Decode the camera section body: a run of tag-1 nodes ended by tag 0.
/// The node type is 2-gated and defaults to zero when that byte is
/// absent; type-0 nodes carry no section run.
pub open spec fn dec_cameras(b: Seq<u8>, i: int, acc: Seq<CameraNodeV>) -> Option<
    (Seq<CameraNodeV>, int),
>
    decreases b.len() - i,
{
    if i < 0 || i >= b.len() {
        None
    } else if b[i] == 0 {
        Some((acc, i + 1))
    } else if b[i] != 1 {
        None
    } else if i + 3 > b.len() {
        None
    } else {
        let idx = i16v(b[i + 1], b[i + 2]);
        if i + 3 < b.len() && b[i + 3] == 2 {
            if i + 5 > b.len() {
                None
            } else {
                let t = b[i + 4];
                if t > 4 {
                    None
                } else if t == 0 {
                    dec_cameras(
                        b,
                        i + 5,
                        acc.push(CameraNodeV { index: idx, camera_type: 0, sections: Seq::empty() }),
                    )
                } else {
                    match dec_sections(b, i + 5, t, Seq::empty()) {
                        Some((ss, j)) => if i < j <= b.len() {
                            dec_cameras(
                                b,
                                j,
                                acc.push(CameraNodeV { index: idx, camera_type: t, sections: ss }),
                            )
                        } else {
                            None
                        },
                        None => None,
                    }
                }
            }
        } else {
            dec_cameras(
                b,
                i + 3,
                acc.push(CameraNodeV { index: idx, camera_type: 0, sections: Seq::empty() }),
            )
        }
    }
}

/// Decode the lighting section body: a run of tag-1 nodes ended by tag 0.
/// All three inner gates are mandatory.
pub open spec fn dec_lightings(b: Seq<u8>, i: int, acc: Seq<LightingNode>) -> Option<
    (Seq<LightingNode>, int),
>
    decreases b.len() - i,
{
    if i < 0 || i >= b.len() {
        None
    } else if b[i] == 0 {
        Some((acc, i + 1))
    } else if b[i] != 1 {
        None
    } else if i + 36 > b.len() {
        None
    } else if b[i + 1] != 2 || b[i + 14] != 3 || b[i + 23] != 4 {
        None
    } else {
        let n = LightingNode {
            position: Vec3Bits {
                x: u32v(b[i + 2], b[i + 3], b[i + 4], b[i + 5]),
                y: u32v(b[i + 6], b[i + 7], b[i + 8], b[i + 9]),
                z: u32v(b[i + 10], b[i + 11], b[i + 12], b[i + 13]),
            },
            flags: Vec2Bits {
                x: u32v(b[i + 15], b[i + 16], b[i + 17], b[i + 18]),
                y: u32v(b[i + 19], b[i + 20], b[i + 21], b[i + 22]),
            },
            rgb: Rgb { r: b[i + 27], g: b[i + 31], b: b[i + 35] },
        };
        dec_lightings(b, i + 36, acc.push(n))
    }
}

/// Decode a whole level-setup file: the three sections in their fixed
/// order, closed by the command-0 end of file with nothing after it.
pub open spec fn dec_level(b: Seq<u8>) -> Option<LevelSetupV> {
    if b.len() < 1 || b[0] != 1 {
        None
    } else {
        match dec_voxel_list(b, 1) {
            Some((vl, j)) => if 0 <= j < b.len() && b[j] == 3 {
                match dec_cameras(b, j + 1, Seq::empty()) {
                    Some((cs, k)) => if 0 <= k < b.len() && b[k] == 4 {
                        match dec_lightings(b, k + 1, Seq::empty()) {
                            Some((ls, m)) => if m == b.len() - 1 && b[m] == 0 {
                                Some(
                                    LevelSetupV {
                                        voxel_list: vl,
                                        camera_nodes: cs,
                                        lighting_nodes: ls,
                                    },
                                )
                            } else {
                                None
                            },
                            None => None,
                        }
                    } else {
                        None
                    },
                    None => None,
                }
            } else {
                None
            },
            None => None,
        }
    }
}

// ---------------------------------------------------------------------
// Small lemmas about the specification encoder
// ---------------------------------------------------------------------

/// The views of a sequence of viewable values, element by element.
pub open spec fn views_of<T: View>(s: Seq<T>) -> Seq<T::V> {
    Seq::new(s.len(), |i: int| s[i]@)
}

/// Appending a slot appends its record (if any) to the present records.
pub proof fn lemma_present_push(s: Seq<Option<Seq<u8>>>, o: Option<Seq<u8>>)
    ensures
        present_objects(s.push(o)) == present_objects(s) + (match o {
            Some(b) => seq![b],
            None => Seq::<Seq<u8>>::empty(),
        }),
    decreases s.len(),
{
    let tail: Seq<Seq<u8>> = match o {
        Some(b) => seq![b],
        None => Seq::<Seq<u8>>::empty(),
    };
    if s.len() == 0 {
        assert(s.push(o)[0] == o);
        assert(s.push(o).drop_first() =~= Seq::<Option<Seq<u8>>>::empty());
        assert(present_objects(Seq::<Option<Seq<u8>>>::empty()) == Seq::<Seq<u8>>::empty());
        assert(present_objects(s) == Seq::<Seq<u8>>::empty());
        assert(present_objects(s.push(o)) =~= present_objects(s) + tail);
    } else {
        assert(s.push(o)[0] == s[0]);
        assert(s.push(o).drop_first() =~= s.drop_first().push(o));
        lemma_present_push(s.drop_first(), o);
        let rest = present_objects(s.drop_first());
        if s[0] is Some {
            let b0 = s[0]->0;
            assert(present_objects(s) == seq![b0] + rest);
            assert(present_objects(s.push(o)) == seq![b0] + (rest + tail));
            assert(seq![b0] + (rest + tail) =~= (seq![b0] + rest) + tail);
        } else {
            assert(present_objects(s) == rest);
            assert(present_objects(s.push(o)) == rest + tail);
        }
    }
}

/// Appending a voxel appends its encoding.
pub proof fn lemma_enc_voxels_push(s: Seq<VoxelV>, v: VoxelV)
    ensures
        enc_voxels(s.push(v)) == enc_voxels(s) + enc_voxel(v),
    decreases s.len(),
{
    if s.len() == 0 {
        assert(s.push(v)[0] == v);
        assert(s.push(v).drop_first() =~= Seq::<VoxelV>::empty());
        assert(enc_voxels(Seq::<VoxelV>::empty()) == Seq::<u8>::empty());
        assert(enc_voxels(s) == Seq::<u8>::empty());
        assert(enc_voxels(s.push(v)) =~= enc_voxels(s) + enc_voxel(v));
    } else {
        assert(s.push(v)[0] == s[0]);
        assert(s.push(v).drop_first() =~= s.drop_first().push(v));
        lemma_enc_voxels_push(s.drop_first(), v);
        assert(enc_voxels(s) == enc_voxel(s[0]) + enc_voxels(s.drop_first()));
        assert(enc_voxels(s.push(v)) == enc_voxel(s[0]) + (enc_voxels(s.drop_first()) + enc_voxel(v)));
        assert(enc_voxel(s[0]) + (enc_voxels(s.drop_first()) + enc_voxel(v)) =~= (enc_voxel(s[0]) + enc_voxels(s.drop_first())) + enc_voxel(v));
    }
}

/// Appending a section appends its encoding.
pub proof fn lemma_enc_sections_push(s: Seq<CameraNodeSectionV>, x: CameraNodeSectionV)
    ensures
        enc_sections(s.push(x)) == enc_sections(s) + enc_section(x),
    decreases s.len(),
{
    if s.len() == 0 {
        assert(s.push(x)[0] == x);
        assert(s.push(x).drop_first() =~= Seq::<CameraNodeSectionV>::empty());
        assert(enc_sections(Seq::<CameraNodeSectionV>::empty()) == Seq::<u8>::empty());
        assert(enc_sections(s) == Seq::<u8>::empty());
        assert(enc_sections(s.push(x)) =~= enc_sections(s) + enc_section(x));
    } else {
        assert(s.push(x)[0] == s[0]);
        assert(s.push(x).drop_first() =~= s.drop_first().push(x));
        lemma_enc_sections_push(s.drop_first(), x);
        assert(enc_sections(s) == enc_section(s[0]) + enc_sections(s.drop_first()));
        assert(enc_sections(s.push(x)) == enc_section(s[0]) + (enc_sections(s.drop_first()) + enc_section(x)));
        assert(enc_section(s[0]) + (enc_sections(s.drop_first()) + enc_section(x)) =~= (enc_section(s[0]) + enc_sections(s.drop_first())) + enc_section(x));
    }
}

/// Appending a camera node appends its encoding.
pub proof fn lemma_enc_cameras_push(s: Seq<CameraNodeV>, x: CameraNodeV)
    ensures
        enc_cameras(s.push(x)) == enc_cameras(s) + enc_camera(x),
    decreases s.len(),
{
    if s.len() == 0 {
        assert(s.push(x)[0] == x);
        assert(s.push(x).drop_first() =~= Seq::<CameraNodeV>::empty());
        assert(enc_cameras(Seq::<CameraNodeV>::empty()) == Seq::<u8>::empty());
        assert(enc_cameras(s) == Seq::<u8>::empty());
        assert(enc_cameras(s.push(x)) =~= enc_cameras(s) + enc_camera(x));
    } else {
        assert(s.push(x)[0] == s[0]);
        assert(s.push(x).drop_first() =~= s.drop_first().push(x));
        lemma_enc_cameras_push(s.drop_first(), x);
        assert(enc_cameras(s) == enc_camera(s[0]) + enc_cameras(s.drop_first()));
        assert(enc_cameras(s.push(x)) == enc_camera(s[0]) + (enc_cameras(s.drop_first()) + enc_camera(x)));
        assert(enc_camera(s[0]) + (enc_cameras(s.drop_first()) + enc_camera(x)) =~= (enc_camera(s[0]) + enc_cameras(s.drop_first())) + enc_camera(x));
    }
}

/// Appending a lighting node appends its encoding.
#[verifier::rlimit(50)]
pub proof fn lemma_enc_lightings_push(s: Seq<LightingNode>, x: LightingNode)
    ensures
        enc_lightings(s.push(x)) == enc_lightings(s) + enc_lighting(x),
    decreases s.len(),
{
    if s.len() == 0 {
        assert(s.push(x)[0] == x);
        assert(s.push(x).drop_first() =~= Seq::<LightingNode>::empty());
        assert(enc_lightings(Seq::<LightingNode>::empty()) == Seq::<u8>::empty());
        assert(enc_lightings(s) == Seq::<u8>::empty());
        assert(enc_lightings(s.push(x)) =~= enc_lightings(s) + enc_lighting(x));
    } else {
        assert(s.push(x)[0] == s[0]);
        assert(s.push(x).drop_first() =~= s.drop_first().push(x));
        lemma_enc_lightings_push(s.drop_first(), x);
        assert(enc_lightings(s) == enc_lighting(s[0]) + enc_lightings(s.drop_first()));
        assert(enc_lightings(s.push(x)) == enc_lighting(s[0]) + (enc_lightings(s.drop_first()) + enc_lighting(x)));
        assert(enc_lighting(s[0]) + (enc_lightings(s.drop_first()) + enc_lighting(x)) =~= (enc_lighting(s[0]) + enc_lightings(s.drop_first())) + enc_lighting(x));
    }
}

} // verus!
