//! The executable level-setup codec, proved against the specification
//! codec of [`crate::level`].
//!
//! `LevelSetup::to_bytes` produces exactly `enc_level` of the value;
//! `LevelSetup::from_bytes` succeeds exactly when `dec_level` of the
//! input is defined and then returns exactly that value.

use vstd::prelude::*;
use crate::bytes::{push_be32, push_be_i16, push_be_i32};
use crate::error::{ErrorKind, ParseError, Phase};
use crate::level::{
    camera_valid, dec_cameras, dec_level, dec_lightings, dec_sections, dec_voxel, dec_voxel_list,
    dec_voxels, enc_camera, enc_camera_list, enc_cameras, enc_level, enc_lighting,
    enc_lighting_list, enc_lightings, enc_sections, enc_voxel, enc_voxel_list, enc_voxels,
    lattice_volume, lemma_enc_cameras_push, lemma_enc_lightings_push, lemma_enc_sections_push,
    lemma_enc_voxels_push, lemma_present_push, level_encodable, level_valid, obj_chunks,
    present_objects, prop_chunks, section_len, views_of, voxel_encodable, voxel_valid, CameraNode,
    CameraNodeList, CameraNodeSection, CameraNodeSectionV, CameraNodeV, LevelSetup, LightingNode,
    LightingNodeList, Rgb, Vec2Bits, Vec3Bits, Vec3i, Voxel, VoxelList, VoxelListV, VoxelV,
};
use crate::reader::LevelSetupReader;

verus! {

/// The error for a byte the parser rejects at the reader's cursor:
/// the rejected byte at its offset, or a truncation at the end of the
/// input.
fn rejected_here(r: &LevelSetupReader, phase: Phase) -> (e: ParseError)
    requires
        r.wf(),
    ensures
        e.phase == phase,
{
    match r.peek() {
        Some(fb) => ParseError::new(phase, ErrorKind::UnexpectedByte, r.offset(), fb),
        None => ParseError::new(phase, ErrorKind::Truncated, r.offset(), 0),
    }
}

/// Append every byte of `src` to `out`.
fn push_bytes(out: &mut Vec<u8>, src: &Vec<u8>)
    ensures
        final(out)@ == old(out)@ + src@,
{
    let mut i: usize = 0;
    while i < src.len()
        invariant
            i <= src@.len(),
            out@ =~= old(out)@ + src@.take(i as int),
        decreases src@.len() - i,
    {
        out.push(src[i]);
        i = i + 1;
        assert(src@.take(i as int) =~= src@.take(i as int - 1).push(src@[i as int - 1]));
        assert(out@ =~= old(out)@ + src@.take(i as int));
    }
    assert(src@.take(src@.len() as int) =~= src@);
}

impl Voxel {
    /// Append the binary form of this voxel: its object group, its prop
    /// group, and the tag-1 terminator.
    pub fn write_bytes(&self, out: &mut Vec<u8>)
        requires
            voxel_encodable(self@),
        ensures
            final(out)@ == old(out)@ + enc_voxel(self@),
    {
        let ghost objs = self@.objects;
        let ghost prps = self@.props;
        if self.objects.len() > 0 {
            // Count the present records; the on-disk count byte holds
            // only those.
            let mut np: usize = 0;
            let mut i: usize = 0;
            while i < self.objects.len()
                invariant
                    i <= self.objects@.len(),
                    objs == self@.objects,
                    objs.len() == self.objects@.len(),
                    np == present_objects(objs.take(i as int)).len(),
                    np <= i,
                decreases self.objects@.len() - i,
            {
                proof {
                    assert(objs.take(i + 1) =~= objs.take(i as int).push(objs[i as int]));
                    lemma_present_push(objs.take(i as int), objs[i as int]);
                }
                match &self.objects[i] {
                    Some(_) => {
                        np = np + 1;
                    },
                    None => {},
                }
                i = i + 1;
            }
            proof {
                assert(objs.take(objs.len() as int) =~= objs);
            }
            out.push(3);
            out.push(0x0A);
            out.push(np as u8);
            if np > 0 {
                out.push(0x0B);
                let ghost base = out@;
                let mut i: usize = 0;
                while i < self.objects.len()
                    invariant
                        i <= self.objects@.len(),
                        objs == self@.objects,
                        objs.len() == self.objects@.len(),
                        out@ =~= base + present_objects(objs.take(i as int)).flatten(),
                    decreases self.objects@.len() - i,
                {
                    proof {
                        assert(objs.take(i + 1) =~= objs.take(i as int).push(objs[i as int]));
                        lemma_present_push(objs.take(i as int), objs[i as int]);
                    }
                    match &self.objects[i] {
                        Some(b) => {
                            push_bytes(out, b);
                            proof {
                                let p = present_objects(objs.take(i as int));
                                assert(p.push(b@) =~= p + seq![b@]);
                                p.lemma_flatten_push(b@);
                                assert(out@ =~= base + present_objects(
                                    objs.take(i + 1),
                                ).flatten());
                            }
                        },
                        None => {
                            proof {
                                let p = present_objects(objs.take(i as int));
                                assert(present_objects(objs.take(i + 1)) =~= p);
                            }
                        },
                    }
                    i = i + 1;
                }
                proof {
                    assert(objs.take(objs.len() as int) =~= objs);
                }
            }
        }
        if self.props.len() > 0 {
            out.push(8);
            out.push(self.props.len() as u8);
            out.push(9);
            let ghost base2 = out@;
            let mut i: usize = 0;
            while i < self.props.len()
                invariant
                    i <= self.props@.len(),
                    prps == self@.props,
                    prps.len() == self.props@.len(),
                    out@ =~= base2 + prps.take(i as int).flatten(),
                decreases self.props@.len() - i,
            {
                push_bytes(out, &self.props[i]);
                proof {
                    let p = prps.take(i as int);
                    assert(prps.take(i + 1) =~= p.push(prps[i as int]));
                    p.lemma_flatten_push(prps[i as int]);
                    assert(prps[i as int] == self.props@[i as int]@);
                    assert(out@ =~= base2 + prps.take(i + 1).flatten());
                }
                i = i + 1;
            }
            proof {
                assert(prps.take(prps.len() as int) =~= prps);
            }
        }
        out.push(1);
        assert(out@ =~= old(out)@ + enc_voxel(self@));
    }
}

impl VoxelList {
    /// Append the binary voxel section: command 1, the 1-gated start
    /// triple, the bare end triple, one voxel per lattice point and the
    /// trailing 0 gate.
    pub fn to_bytes(&self, out: &mut Vec<u8>)
        requires
            forall|i: int|
                0 <= i < self@.voxels.len() ==> voxel_encodable(#[trigger] self@.voxels[i]),
        ensures
            final(out)@ == old(out)@ + enc_voxel_list(self@),
    {
        out.push(1);
        out.push(1);
        push_be_i32(out, self.start_position.x);
        push_be_i32(out, self.start_position.y);
        push_be_i32(out, self.start_position.z);
        push_be_i32(out, self.end_position.x);
        push_be_i32(out, self.end_position.y);
        push_be_i32(out, self.end_position.z);
        let ghost vs = self@.voxels;
        let ghost base = out@;
        let mut i: usize = 0;
        while i < self.voxels.len()
            invariant
                i <= self.voxels@.len(),
                vs == self@.voxels,
                vs.len() == self.voxels@.len(),
                forall|k: int| 0 <= k < vs.len() ==> voxel_encodable(#[trigger] vs[k]),
                out@ =~= base + enc_voxels(vs.take(i as int)),
            decreases self.voxels@.len() - i,
        {
            proof {
                assert(vs[i as int] == self.voxels@[i as int]@);
            }
            self.voxels[i].write_bytes(out);
            proof {
                assert(vs.take(i + 1) =~= vs.take(i as int).push(vs[i as int]));
                lemma_enc_voxels_push(vs.take(i as int), vs[i as int]);
                assert(out@ =~= base + enc_voxels(vs.take(i + 1)));
            }
            i = i + 1;
        }
        proof {
            assert(vs.take(vs.len() as int) =~= vs);
        }
        out.push(0);
        assert(out@ =~= old(out)@ + enc_voxel_list(self@));
    }
}

impl CameraNode {
    /// Append the binary form of this node: tag 1, the index, the
    /// 2-gated type, and for typed nodes the sections closed by their 0
    /// terminator.
    pub fn write_bytes(&self, out: &mut Vec<u8>)
        ensures
            final(out)@ == old(out)@ + enc_camera(self@),
    {
        out.push(1);
        push_be_i16(out, self.index);
        out.push(2);
        out.push(self.camera_type);
        if self.camera_type != 0 {
            let ghost ss = self@.sections;
            let ghost base = out@;
            let mut i: usize = 0;
            while i < self.sections.len()
                invariant
                    i <= self.sections@.len(),
                    ss == self@.sections,
                    ss.len() == self.sections@.len(),
                    out@ =~= base + enc_sections(ss.take(i as int)),
                decreases self.sections@.len() - i,
            {
                out.push(self.sections[i].tag);
                push_bytes(out, &self.sections[i].bytes);
                proof {
                    assert(ss[i as int] == self.sections@[i as int]@);
                    assert(ss.take(i + 1) =~= ss.take(i as int).push(ss[i as int]));
                    lemma_enc_sections_push(ss.take(i as int), ss[i as int]);
                    assert(out@ =~= base + enc_sections(ss.take(i + 1)));
                }
                i = i + 1;
            }
            proof {
                assert(ss.take(ss.len() as int) =~= ss);
            }
            out.push(0);
        }
        assert(out@ =~= old(out)@ + enc_camera(self@));
    }
}

impl CameraNodeList {
    /// Append the binary camera section: command 3, the nodes, the 0
    /// terminator.
    pub fn to_bytes(&self, out: &mut Vec<u8>)
        ensures
            final(out)@ == old(out)@ + enc_camera_list(self@),
    {
        out.push(3);
        let ghost ns = self@;
        let ghost base = out@;
        let mut i: usize = 0;
        while i < self.nodes.len()
            invariant
                i <= self.nodes@.len(),
                ns == self@,
                ns.len() == self.nodes@.len(),
                out@ =~= base + enc_cameras(ns.take(i as int)),
            decreases self.nodes@.len() - i,
        {
            proof {
                assert(ns[i as int] == self.nodes@[i as int]@);
            }
            self.nodes[i].write_bytes(out);
            proof {
                assert(ns.take(i + 1) =~= ns.take(i as int).push(ns[i as int]));
                lemma_enc_cameras_push(ns.take(i as int), ns[i as int]);
                assert(out@ =~= base + enc_cameras(ns.take(i + 1)));
            }
            i = i + 1;
        }
        proof {
            assert(ns.take(ns.len() as int) =~= ns);
        }
        out.push(0);
        assert(out@ =~= old(out)@ + enc_camera_list(self@));
    }
}

impl LightingNode {
    /// Append the binary form of this probe: the 2-gated position, the
    /// 3-gated flags, the 4-gated color words.
    pub fn write_bytes(&self, out: &mut Vec<u8>)
        ensures
            final(out)@ == old(out)@ + enc_lighting(*self),
    {
        out.push(1);
        out.push(2);
        push_be32(out, self.position.x);
        push_be32(out, self.position.y);
        push_be32(out, self.position.z);
        out.push(3);
        push_be32(out, self.flags.x);
        push_be32(out, self.flags.y);
        out.push(4);
        out.push(0);
        out.push(0);
        out.push(0);
        out.push(self.rgb.r);
        out.push(0);
        out.push(0);
        out.push(0);
        out.push(self.rgb.g);
        out.push(0);
        out.push(0);
        out.push(0);
        out.push(self.rgb.b);
        assert(out@ =~= old(out)@ + enc_lighting(*self));
    }
}

impl LightingNodeList {
    /// Append the binary lighting section: command 4, the nodes, the 0
    /// terminator.
    pub fn to_bytes(&self, out: &mut Vec<u8>)
        ensures
            final(out)@ == old(out)@ + enc_lighting_list(self@),
    {
        out.push(4);
        let ghost ns = self@;
        let ghost base = out@;
        let mut i: usize = 0;
        while i < self.nodes.len()
            invariant
                i <= self.nodes@.len(),
                ns == self@,
                ns.len() == self.nodes@.len(),
                out@ =~= base + enc_lightings(ns.take(i as int)),
            decreases self.nodes@.len() - i,
        {
            self.nodes[i].write_bytes(out);
            proof {
                assert(ns[i as int] == self.nodes@[i as int]);
                assert(ns.take(i + 1) =~= ns.take(i as int).push(ns[i as int]));
                lemma_enc_lightings_push(ns.take(i as int), ns[i as int]);
                assert(out@ =~= base + enc_lightings(ns.take(i + 1)));
            }
            i = i + 1;
        }
        proof {
            assert(ns.take(ns.len() as int) =~= ns);
        }
        out.push(0);
        assert(out@ =~= old(out)@ + enc_lighting_list(self@));
    }
}

impl LevelSetup {
    /// Re-emit the binary level-setup file: the three sections in their
    /// fixed order, closed by the command-0 end of file.
    pub fn to_bytes(&self) -> (r: Vec<u8>)
        requires
            level_encodable(self@),
        ensures
            r@ == enc_level(self@),
    {
        let mut out: Vec<u8> = Vec::new();
        self.voxel_list.to_bytes(&mut out);
        self.camera_nodes.to_bytes(&mut out);
        self.lighting_nodes.to_bytes(&mut out);
        out.push(0);
        assert(out@ =~= enc_level(self@));
        out
    }
}

/// Whether one voxel's on-disk counts fit their single byte each.
#[verifier::loop_isolation(false)]
fn voxel_counts_ok(v: &Voxel) -> (r: bool)
    ensures
        r == voxel_encodable(v@),
{
    if v.props.len() > 255 {
        return false;
    }
    let ghost objs = v@.objects;
    let mut np: usize = 0;
    let mut i: usize = 0;
    while i < v.objects.len()
        invariant
            i <= v.objects@.len(),
            objs == v@.objects,
            objs.len() == v.objects@.len(),
            np == present_objects(objs.take(i as int)).len(),
            np <= i,
        decreases v.objects@.len() - i,
    {
        proof {
            assert(objs.take(i + 1) =~= objs.take(i as int).push(objs[i as int]));
            lemma_present_push(objs.take(i as int), objs[i as int]);
        }
        match &v.objects[i] {
            Some(_) => {
                np = np + 1;
            },
            None => {},
        }
        i = i + 1;
    }
    proof {
        assert(objs.take(objs.len() as int) =~= objs);
    }
    np <= 255
}

impl LevelSetup {
    /// Re-emit the binary file after checking that every per-voxel
    /// count fits its one on-disk byte; a count beyond 255 is the
    /// count-overflow error, and no truncated count is ever written.
    #[verifier::loop_isolation(false)]
    pub fn to_bytes_checked(&self) -> (res: Result<Vec<u8>, ParseError>)
        ensures
            res is Ok <==> level_encodable(self@),
            res matches Ok(r) ==> r@ == enc_level(self@),
            res matches Err(e) ==> e.kind == ErrorKind::CountOverflow && e.phase == Phase::Voxels,
    {
        let mut i: usize = 0;
        while i < self.voxel_list.voxels.len()
            invariant
                i <= self.voxel_list.voxels@.len(),
                forall|k: int|
                    0 <= k < i ==> voxel_encodable(#[trigger] self@.voxel_list.voxels[k]),
            decreases self.voxel_list.voxels@.len() - i,
        {
            if !voxel_counts_ok(&self.voxel_list.voxels[i]) {
                proof {
                    assert(!voxel_encodable(self@.voxel_list.voxels[i as int]));
                    assert(!level_encodable(self@));
                }
                return Err(ParseError::new(Phase::Voxels, ErrorKind::CountOverflow, i, 0));
            }
            i = i + 1;
        }
        proof {
            assert(level_encodable(self@));
        }
        Ok(self.to_bytes())
    }
}


impl LevelSetup {
    /// Whether this value satisfies the structural invariants that the
    /// binary decoder guarantees: the lattice corners are ordered, the
    /// voxel count equals the lattice volume, every record has its
    /// fixed width, and every camera section is legal for its node
    /// type.
    #[verifier::loop_isolation(false)]
    #[verifier::rlimit(100)]
    pub fn is_valid(&self) -> (r: bool)
        ensures
            r == level_valid(self@),
    {
        let s = self.voxel_list.start_position;
        let e = self.voxel_list.end_position;
        if s.x > e.x || s.y > e.y || s.z > e.z {
            return false;
        }
        let dx = (e.x as i64) - (s.x as i64) + 1;
        let dy = (e.y as i64) - (s.y as i64) + 1;
        let dz = (e.z as i64) - (s.z as i64) + 1;
        let dxu: u128 = dx as u128;
        let dyu: u128 = dy as u128;
        let dzu: u128 = dz as u128;
        let ghost da: int = e.x - s.x + 1;
        let ghost db: int = e.y - s.y + 1;
        let ghost dc: int = e.z - s.z + 1;
        proof {
            assert(1 <= dxu <= 0x100000000u128 && dxu == da);
            assert(1 <= dyu <= 0x100000000u128 && dyu == db);
            assert(1 <= dzu <= 0x100000000u128 && dzu == dc);
            assert(dyu * dzu <= 0x10000000000000000u128) by (nonlinear_arith)
                requires
                    dyu <= 0x100000000u128,
                    dzu <= 0x100000000u128,
            ;
        }
        let dydz: u128 = dyu * dzu;
        proof {
            assert(dxu * dydz <= 0x1000000000000000000000000u128) by (nonlinear_arith)
                requires
                    dxu <= 0x100000000u128,
                    dydz <= 0x10000000000000000u128,
            ;
        }
        let vol: u128 = dxu * dydz;
        proof {
            assert(vol == da * (db * dc)) by (nonlinear_arith)
                requires
                    vol == dxu * dydz,
                    dydz == dyu * dzu,
                    dxu == da,
                    dyu == db,
                    dzu == dc,
            ;
            assert(da * (db * dc) == (da * db) * dc) by (nonlinear_arith);
            assert(vol == lattice_volume(s, e));
        }
        if (self.voxel_list.voxels.len() as u128) != vol {
            return false;
        }
        let mut i: usize = 0;
        while i < self.voxel_list.voxels.len()
            invariant
                i <= self.voxel_list.voxels@.len(),
                forall|k: int| 0 <= k < i ==> voxel_valid(#[trigger] self@.voxel_list.voxels[k]),
            decreases self.voxel_list.voxels@.len() - i,
        {
            let v = &self.voxel_list.voxels[i];
            let mut j: usize = 0;
            while j < v.objects.len()
                invariant
                    j <= v.objects@.len(),
                    forall|t: int|
                        0 <= t < j ==> ((#[trigger] v@.objects[t]) matches Some(bb) ==> bb.len()
                            == 20),
                decreases v.objects@.len() - j,
            {
                match &v.objects[j] {
                    Some(b) => {
                        if b.len() != 20 {
                            proof {
                                assert(v@ == self@.voxel_list.voxels[i as int]);
                                assert(v@.objects[j as int] matches Some(bb) && bb.len() != 20);
                                assert(!voxel_valid(self@.voxel_list.voxels[i as int]));
                            }
                            return false;
                        }
                    },
                    None => {},
                }
                j = j + 1;
            }
            let mut j2: usize = 0;
            while j2 < v.props.len()
                invariant
                    j2 <= v.props@.len(),
                    forall|t: int| 0 <= t < j2 ==> (#[trigger] v@.props[t]).len() == 16,
                decreases v.props@.len() - j2,
            {
                if v.props[j2].len() != 16 {
                    proof {
                        assert(v@ == self@.voxel_list.voxels[i as int]);
                        assert(v@.props[j2 as int].len() != 16);
                        assert(!voxel_valid(self@.voxel_list.voxels[i as int]));
                    }
                    return false;
                }
                j2 = j2 + 1;
            }
            proof {
                assert(voxel_valid(self@.voxel_list.voxels[i as int]));
            }
            i = i + 1;
        }
        let mut c: usize = 0;
        while c < self.camera_nodes.nodes.len()
            invariant
                c <= self.camera_nodes.nodes@.len(),
                forall|k: int| 0 <= k < c ==> camera_valid(#[trigger] self@.camera_nodes[k]),
            decreases self.camera_nodes.nodes@.len() - c,
        {
            let n = &self.camera_nodes.nodes[c];
            if n.camera_type > 4 {
                proof {
                    assert(!camera_valid(self@.camera_nodes[c as int]));
                }
                return false;
            }
            if n.camera_type == 0 && n.sections.len() > 0 {
                proof {
                    assert(!camera_valid(self@.camera_nodes[c as int]));
                }
                return false;
            }
            let mut t: usize = 0;
            while t < n.sections.len()
                invariant
                    t <= n.sections@.len(),
                    forall|k: int|
                        0 <= k < t ==> section_len(
                            n.camera_type,
                            (#[trigger] n@.sections[k]).tag,
                        ) == Some(n@.sections[k].bytes.len() as int),
                decreases n.sections@.len() - t,
            {
                match section_payload_len(n.camera_type, n.sections[t].tag) {
                    Some(l) => {
                        if n.sections[t].bytes.len() != l {
                            proof {
                                assert(n@ == self@.camera_nodes[c as int]);
                                assert(n@.sections[t as int] == n.sections@[t as int]@);
                                assert(section_len(n.camera_type, n@.sections[t as int].tag)
                                    != Some(n@.sections[t as int].bytes.len() as int));
                                assert(!camera_valid(self@.camera_nodes[c as int]));
                            }
                            return false;
                        }
                    },
                    None => {
                        proof {
                            assert(n@ == self@.camera_nodes[c as int]);
                            assert(n@.sections[t as int] == n.sections@[t as int]@);
                            assert(section_len(n.camera_type, n@.sections[t as int].tag) is None);
                            assert(!camera_valid(self@.camera_nodes[c as int]));
                        }
                        return false;
                    },
                }
                t = t + 1;
            }
            proof {
                assert(camera_valid(self@.camera_nodes[c as int]));
            }
            c = c + 1;
        }
        true
    }
}

// ---------------------------------------------------------------------
// Decoder
// ---------------------------------------------------------------------

/// The mathematical view of a vector of object slots.
pub open spec fn obj_views(s: Seq<Option<Vec<u8>>>) -> Seq<Option<Seq<u8>>> {
    Seq::new(
        s.len(),
        |i: int|
            match s[i] {
                Some(b) => Some(b@),
                None => None,
            },
    )
}

/// The mathematical view of a vector of prop records.
pub open spec fn prop_views(s: Seq<Vec<u8>>) -> Seq<Seq<u8>> {
    Seq::new(s.len(), |i: int| s[i]@)
}

/// Decode one voxel: a run of tagged blocks ended by tag 1.
#[verifier::loop_isolation(false)]
fn voxel_from_reader(r: &mut LevelSetupReader) -> (res: Result<Voxel, ParseError>)
    requires
        old(r).wf(),
    ensures
        final(r).input() == old(r).input(),
        final(r).wf(),
        match res {
            Ok(v) => {
                &&& dec_voxel(old(r).input(), old(r).pos(), Seq::empty(), Seq::empty()) == Some(
                    (v@, final(r).pos()),
                )
                &&& voxel_valid(v@)
                &&& old(r).pos() < final(r).pos()
            },
            Err(_) => dec_voxel(old(r).input(), old(r).pos(), Seq::empty(), Seq::empty()) is None,
        },
{
    let ghost inp = old(r).input();
    let ghost p0 = old(r).pos();
    let mut objects: Vec<Option<Vec<u8>>> = Vec::new();
    let mut props: Vec<Vec<u8>> = Vec::new();
    proof {
        assert(obj_views(objects@) =~= Seq::<Option<Seq<u8>>>::empty());
        assert(prop_views(props@) =~= Seq::<Seq<u8>>::empty());
    }
    loop
        invariant
            r.wf(),
            r.input() == inp,
            p0 <= r.pos(),
            dec_voxel(inp, p0, Seq::empty(), Seq::empty()) == dec_voxel(
                inp,
                r.pos(),
                obj_views(objects@),
                prop_views(props@),
            ),
            forall|i: int|
                0 <= i < objects@.len() ==> ((#[trigger] objects@[i]) matches Some(b) ==> b@.len()
                    == 20),
            forall|i: int| 0 <= i < props@.len() ==> (#[trigger] props@[i])@.len() == 16,
        decreases inp.len() - r.pos(),
    {
        let ghost pos = r.pos();
        let ghost ov = obj_views(objects@);
        let ghost pv = prop_views(props@);
        let tag = match r.read_u8(Phase::Voxels) {
            Ok(t) => t,
            Err(e) => {
                proof {
                    assert(dec_voxel(inp, pos, ov, pv) is None);
                }
                return Err(e);
            },
        };
        if tag == 1 {
            let v = Voxel { objects, props };
            proof {
                assert(v@ =~= (VoxelV { objects: ov, props: pv }));
                assert(0 <= pos < inp.len());
                assert(inp[pos] == 1);
                assert(dec_voxel(inp, pos, ov, pv) == Some(
                    (VoxelV { objects: ov, props: pv }, pos + 1),
                ));
                assert(dec_voxel(inp, pos, ov, pv) == Some((v@, pos + 1)));
            }
            return Ok(v);
        } else if tag == 3 {
            let kind = match r.read_u8(Phase::Voxels) {
                Ok(k) => k,
                Err(e) => {
                    proof {
                        assert(dec_voxel(inp, pos, ov, pv) is None);
                    }
                    return Err(e);
                },
            };
            let cnt = match r.read_u8(Phase::Voxels) {
                Ok(c) => c,
                Err(e) => {
                    proof {
                        assert(dec_voxel(inp, pos, ov, pv) is None);
                    }
                    return Err(e);
                },
            };
            if kind != 0x6 && kind != 0x0A {
                proof {
                    assert(dec_voxel(inp, pos, ov, pv) is None);
                }
                return Err(
                    ParseError::new(Phase::Voxels, ErrorKind::UnexpectedByte, r.offset() - 2, kind),
                );
            }
            if cnt == 0 {
                objects.push(Option::None);
                proof {
                    assert(obj_views(objects@) =~= ov.push(Option::None));
                    assert(dec_voxel(inp, pos, ov, pv) == dec_voxel(
                        inp,
                        pos + 3,
                        ov.push(Option::None),
                        pv,
                    ));
                }
            } else {
                let n = cnt as usize;
                if !r.read_if_expected(kind + 1) {
                    proof {
                        assert(dec_voxel(inp, pos, ov, pv) is None);
                    }
                    return Err(rejected_here(r, Phase::Voxels));
                }
                let data = match r.read_u8_n(n * 20, Phase::Voxels) {
                    Ok(d) => d,
                    Err(e) => {
                        proof {
                            assert(dec_voxel(inp, pos, ov, pv) is None);
                        }
                        return Err(e);
                    },
                };
                let ghost dpos = pos + 4;
                let mut k: usize = 0;
                while k < n
                    invariant
                        k <= n,
                        n <= 255,
                        data@.len() == 20 * n,
                        data@ == inp.subrange(dpos, dpos + 20 * n),
                        0 <= dpos,
                        dpos + 20 * n <= inp.len(),
                        obj_views(objects@) =~= ov + obj_chunks(inp, dpos, k as int),
                        forall|i: int|
                            0 <= i < objects@.len() ==> ((#[trigger] objects@[i]) matches Some(b)
                                ==> b@.len() == 20),
                    decreases n - k,
                {
                    let mut rec: Vec<u8> = Vec::new();
                    let mut t: usize = 0;
                    while t < 20
                        invariant
                            t <= 20,
                            k < n,
                            data@.len() == 20 * n,
                            rec@ =~= data@.subrange(20 * k as int, 20 * k as int + t),
                        decreases 20 - t,
                    {
                        rec.push(data[20 * k + t]);
                        t = t + 1;
                        assert(rec@ =~= data@.subrange(20 * k as int, 20 * k as int + t));
                    }
                    let ghost prevo = objects@;
                    objects.push(Some(rec));
                    k = k + 1;
                    proof {
                        assert(rec@ =~= inp.subrange(dpos + 20 * (k - 1), dpos + 20 * k));
                        assert(obj_chunks(inp, dpos, k as int) =~= obj_chunks(
                            inp,
                            dpos,
                            k as int - 1,
                        ).push(Some(inp.subrange(dpos + 20 * (k - 1), dpos + 20 * k))));
                        assert(obj_views(prevo.push(Some(rec))) =~= obj_views(prevo).push(
                            Some(rec@),
                        ));
                        assert((ov + obj_chunks(inp, dpos, k as int - 1)).push(Some(rec@)) =~= ov
                            + obj_chunks(inp, dpos, k as int));
                        assert(obj_views(objects@) =~= ov + obj_chunks(inp, dpos, k as int));
                    }
                }
                proof {
                    assert(dec_voxel(inp, pos, ov, pv) == dec_voxel(
                        inp,
                        pos + 4 + 20 * (n as int),
                        ov + obj_chunks(inp, dpos, n as int),
                        pv,
                    ));
                }
            }
        } else if tag == 8 {
            let cnt = match r.read_u8(Phase::Voxels) {
                Ok(c) => c,
                Err(e) => {
                    proof {
                        assert(dec_voxel(inp, pos, ov, pv) is None);
                    }
                    return Err(e);
                },
            };
            if cnt == 0 {
                proof {
                    assert(dec_voxel(inp, pos, ov, pv) == dec_voxel(inp, pos + 2, ov, pv));
                }
            } else {
                let n = cnt as usize;
                if !r.read_if_expected(9) {
                    proof {
                        assert(dec_voxel(inp, pos, ov, pv) is None);
                    }
                    return Err(rejected_here(r, Phase::Voxels));
                }
                let data = match r.read_u8_n(n * 16, Phase::Voxels) {
                    Ok(d) => d,
                    Err(e) => {
                        proof {
                            assert(dec_voxel(inp, pos, ov, pv) is None);
                        }
                        return Err(e);
                    },
                };
                let ghost dpos = pos + 3;
                let mut k: usize = 0;
                while k < n
                    invariant
                        k <= n,
                        n <= 255,
                        data@.len() == 16 * n,
                        data@ == inp.subrange(dpos, dpos + 16 * n),
                        0 <= dpos,
                        dpos + 16 * n <= inp.len(),
                        prop_views(props@) =~= pv + prop_chunks(inp, dpos, k as int),
                        forall|i: int| 0 <= i < props@.len() ==> (#[trigger] props@[i])@.len()
                            == 16,
                    decreases n - k,
                {
                    let mut rec: Vec<u8> = Vec::new();
                    let mut t: usize = 0;
                    while t < 16
                        invariant
                            t <= 16,
                            k < n,
                            data@.len() == 16 * n,
                            rec@ =~= data@.subrange(16 * k as int, 16 * k as int + t),
                        decreases 16 - t,
                    {
                        rec.push(data[16 * k + t]);
                        t = t + 1;
                        assert(rec@ =~= data@.subrange(16 * k as int, 16 * k as int + t));
                    }
                    let ghost prevp = props@;
                    props.push(rec);
                    k = k + 1;
                    proof {
                        assert(rec@ =~= inp.subrange(dpos + 16 * (k - 1), dpos + 16 * k));
                        assert(prop_chunks(inp, dpos, k as int) =~= prop_chunks(
                            inp,
                            dpos,
                            k as int - 1,
                        ).push(inp.subrange(dpos + 16 * (k - 1), dpos + 16 * k)));
                        assert(prop_views(prevp.push(rec)) =~= prop_views(prevp).push(rec@));
                        assert((pv + prop_chunks(inp, dpos, k as int - 1)).push(rec@) =~= pv
                            + prop_chunks(inp, dpos, k as int));
                        assert(prop_views(props@) =~= pv + prop_chunks(inp, dpos, k as int));
                    }
                }
                proof {
                    assert(dec_voxel(inp, pos, ov, pv) == dec_voxel(
                        inp,
                        pos + 3 + 16 * (n as int),
                        ov,
                        pv + prop_chunks(inp, dpos, n as int),
                    ));
                }
            }
        } else {
            proof {
                assert(dec_voxel(inp, pos, ov, pv) is None);
            }
            return Err(ParseError::new(Phase::Voxels, ErrorKind::UnexpectedByte, r.offset() - 1, tag));
        }
    }
}

/// Decode the voxel section body after its command byte.
#[verifier::loop_isolation(false)]
fn voxel_list_from_reader(r: &mut LevelSetupReader) -> (res: Result<VoxelList, ParseError>)
    requires
        old(r).wf(),
    ensures
        final(r).input() == old(r).input(),
        final(r).wf(),
        match res {
            Ok(v) => {
                &&& dec_voxel_list(old(r).input(), old(r).pos()) == Some((v@, final(r).pos()))
                &&& old(r).pos() < final(r).pos()
                &&& v@.start_position.x <= v@.end_position.x
                &&& v@.start_position.y <= v@.end_position.y
                &&& v@.start_position.z <= v@.end_position.z
                &&& v@.voxels.len() == lattice_volume(v@.start_position, v@.end_position)
                &&& forall|i: int| 0 <= i < v@.voxels.len() ==> voxel_valid(#[trigger] v@.voxels[i])
            },
            Err(_) => dec_voxel_list(old(r).input(), old(r).pos()) is None,
        },
{
    let ghost inp = old(r).input();
    let ghost p0 = old(r).pos();
    if !r.read_if_expected(1) {
        proof {
            assert(dec_voxel_list(inp, p0) is None);
        }
        return Err(rejected_here(r, Phase::Voxels));
    }
    let sx = match r.read_i32(Phase::Voxels) {
        Ok(v) => v,
        Err(e) => {
            proof {
                assert(dec_voxel_list(inp, p0) is None);
            }
            return Err(e);
        },
    };
    let sy = match r.read_i32(Phase::Voxels) {
        Ok(v) => v,
        Err(e) => {
            proof {
                assert(dec_voxel_list(inp, p0) is None);
            }
            return Err(e);
        },
    };
    let sz = match r.read_i32(Phase::Voxels) {
        Ok(v) => v,
        Err(e) => {
            proof {
                assert(dec_voxel_list(inp, p0) is None);
            }
            return Err(e);
        },
    };
    let ex = match r.read_i32(Phase::Voxels) {
        Ok(v) => v,
        Err(e) => {
            proof {
                assert(dec_voxel_list(inp, p0) is None);
            }
            return Err(e);
        },
    };
    let ey = match r.read_i32(Phase::Voxels) {
        Ok(v) => v,
        Err(e) => {
            proof {
                assert(dec_voxel_list(inp, p0) is None);
            }
            return Err(e);
        },
    };
    let ez = match r.read_i32(Phase::Voxels) {
        Ok(v) => v,
        Err(e) => {
            proof {
                assert(dec_voxel_list(inp, p0) is None);
            }
            return Err(e);
        },
    };
    let s = Vec3i { x: sx, y: sy, z: sz };
    let e = Vec3i { x: ex, y: ey, z: ez };
    if sx > ex || sy > ey || sz > ez {
        proof {
            assert(dec_voxel_list(inp, p0) is None);
        }
        return Err(
            ParseError::new(Phase::Voxels, ErrorKind::InvariantViolation, r.offset(), 0),
        );
    }
    let dx = (ex as i64) - (sx as i64) + 1;
    let dy = (ey as i64) - (sy as i64) + 1;
    let dz = (ez as i64) - (sz as i64) + 1;
    let dxu: u128 = dx as u128;
    let dyu: u128 = dy as u128;
    let dzu: u128 = dz as u128;
    let ghost da: int = e.x - s.x + 1;
    let ghost db: int = e.y - s.y + 1;
    let ghost dc: int = e.z - s.z + 1;
    proof {
        assert(1 <= dxu <= 0x100000000u128 && dxu == da);
        assert(1 <= dyu <= 0x100000000u128 && dyu == db);
        assert(1 <= dzu <= 0x100000000u128 && dzu == dc);
        assert(dyu * dzu <= 0x10000000000000000u128) by (nonlinear_arith)
            requires
                dyu <= 0x100000000u128,
                dzu <= 0x100000000u128,
        ;
    }
    let dydz: u128 = dyu * dzu;
    proof {
        assert(dxu * dydz <= 0x1000000000000000000000000u128) by (nonlinear_arith)
            requires
                dxu <= 0x100000000u128,
                dydz <= 0x10000000000000000u128,
        ;
    }
    let vol: u128 = dxu * dydz;
    proof {
        assert(vol == da * (db * dc)) by (nonlinear_arith)
            requires
                vol == dxu * dydz,
                dydz == dyu * dzu,
                dxu == da,
                dyu == db,
                dzu == dc,
        ;
        assert(da * (db * dc) == (da * db) * dc) by (nonlinear_arith);
        assert(vol == lattice_volume(s, e));
    }
    let ghost p25 = p0 + 25;
    let mut voxels: Vec<Voxel> = Vec::new();
    let mut k: u128 = 0;
    proof {
        assert(views_of(voxels@) =~= Seq::<VoxelV>::empty());
    }
    while k < vol
        invariant
            r.wf(),
            r.input() == inp,
            p25 <= r.pos(),
            k <= vol,
            voxels@.len() == k,
            dec_voxels(inp, p25, vol as nat, Seq::empty()) == dec_voxels(
                inp,
                r.pos(),
                (vol - k) as nat,
                views_of(voxels@),
            ),
            forall|i: int| 0 <= i < voxels@.len() ==> voxel_valid(#[trigger] views_of(voxels@)[i]),
        decreases vol - k,
    {
        let ghost pos = r.pos();
        let ghost vws = views_of(voxels@);
        let v = match voxel_from_reader(r) {
            Ok(v) => v,
            Err(e) => {
                proof {
                    assert(dec_voxels(inp, pos, (vol - k) as nat, vws) is None);
                    assert(dec_voxel_list(inp, p0) is None);
                }
                return Err(e);
            },
        };
        voxels.push(v);
        k = k + 1;
        proof {
            assert(views_of(voxels@) =~= vws.push(v@));
            assert(dec_voxels(inp, pos, (vol - (k - 1)) as nat, vws) == dec_voxels(
                inp,
                r.pos(),
                (vol - k) as nat,
                vws.push(v@),
            ));
        }
    }
    proof {
        assert(dec_voxels(inp, r.pos(), 0, views_of(voxels@)) == Some(
            (views_of(voxels@), r.pos()),
        ));
    }
    let _trailing = r.read_if_expected(0);
    let vl = VoxelList { start_position: s, end_position: e, voxels };
    proof {
        assert(vl@.voxels =~= views_of(voxels@));
        assert(vl@ =~= (VoxelListV {
            start_position: s,
            end_position: e,
            voxels: views_of(voxels@),
        }));
        assert(dec_voxel_list(inp, p0) == Some((vl@, final(r).pos())));
    }
    Ok(vl)
}

/// The payload width the format assigns to (node type, section tag), as
/// a value.
fn section_payload_len(t: u8, tag: u8) -> (res: Option<usize>)
    ensures
        section_len(t, tag) matches Some(l) ==> res == Some(l as usize),
        section_len(t, tag) is None ==> res is None,
{
    if t == 1 {
        if tag == 1 || tag == 4 {
            Some(12)
        } else if tag == 2 || tag == 3 {
            Some(8)
        } else if tag == 5 {
            Some(4)
        } else {
            None
        }
    } else if t == 2 {
        if tag == 1 || tag == 2 {
            Some(12)
        } else {
            None
        }
    } else if t == 3 {
        if tag == 1 || tag == 4 {
            Some(12)
        } else if tag == 2 || tag == 3 || tag == 6 {
            Some(8)
        } else if tag == 5 {
            Some(4)
        } else {
            None
        }
    } else if t == 4 {
        if tag == 1 {
            Some(4)
        } else {
            None
        }
    } else {
        None
    }
}

/// The mathematical view of a vector of camera sections.
pub open spec fn section_views(s: Seq<CameraNodeSection>) -> Seq<CameraNodeSectionV> {
    Seq::new(s.len(), |i: int| s[i]@)
}

/// The mathematical view of a vector of camera nodes.
pub open spec fn camera_views(s: Seq<CameraNode>) -> Seq<CameraNodeV> {
    Seq::new(s.len(), |i: int| s[i]@)
}

/// Decode a typed camera node's section run, ended by tag 0.
#[verifier::loop_isolation(false)]
fn sections_from_reader(r: &mut LevelSetupReader, t: u8) -> (res: Result<
    Vec<CameraNodeSection>,
    ParseError,
>)
    requires
        old(r).wf(),
    ensures
        final(r).input() == old(r).input(),
        final(r).wf(),
        match res {
            Ok(v) => {
                &&& dec_sections(old(r).input(), old(r).pos(), t, Seq::empty()) == Some(
                    (section_views(v@), final(r).pos()),
                )
                &&& old(r).pos() < final(r).pos()
                &&& forall|i: int|
                    0 <= i < v@.len() ==> section_len(t, (#[trigger] v@[i])@.tag) == Some(
                        v@[i]@.bytes.len() as int,
                    )
            },
            Err(_) => dec_sections(old(r).input(), old(r).pos(), t, Seq::empty()) is None,
        },
{
    let ghost inp = old(r).input();
    let ghost p0 = old(r).pos();
    let mut sections: Vec<CameraNodeSection> = Vec::new();
    proof {
        assert(section_views(sections@) =~= Seq::<CameraNodeSectionV>::empty());
    }
    loop
        invariant
            r.wf(),
            r.input() == inp,
            p0 <= r.pos(),
            dec_sections(inp, p0, t, Seq::empty()) == dec_sections(
                inp,
                r.pos(),
                t,
                section_views(sections@),
            ),
            forall|i: int|
                0 <= i < sections@.len() ==> section_len(t, (#[trigger] sections@[i])@.tag)
                    == Some(sections@[i]@.bytes.len() as int),
        decreases inp.len() - r.pos(),
    {
        let ghost pos = r.pos();
        let ghost sv = section_views(sections@);
        let tag = match r.read_u8(Phase::Cameras) {
            Ok(v) => v,
            Err(e) => {
                proof {
                    assert(dec_sections(inp, pos, t, sv) is None);
                }
                return Err(e);
            },
        };
        if tag == 0 {
            proof {
                assert(dec_sections(inp, pos, t, sv) == Some((sv, pos + 1)));
            }
            return Ok(sections);
        }
        match section_payload_len(t, tag) {
            None => {
                proof {
                    assert(dec_sections(inp, pos, t, sv) is None);
                }
                return Err(
                    ParseError::new(Phase::Cameras, ErrorKind::UnexpectedByte, r.offset() - 1, tag),
                );
            },
            Some(len) => {
                let data = match r.read_u8_n(len, Phase::Cameras) {
                    Ok(d) => d,
                    Err(e) => {
                        proof {
                            assert(dec_sections(inp, pos, t, sv) is None);
                        }
                        return Err(e);
                    },
                };
                let ghost prevs = sections@;
                sections.push(CameraNodeSection { tag, bytes: data });
                proof {
                    assert(section_views(prevs.push(CameraNodeSection { tag, bytes: data }))
                        =~= section_views(prevs).push(
                        CameraNodeSectionV { tag, bytes: data@ },
                    ));
                    assert(dec_sections(inp, pos, t, sv) == dec_sections(
                        inp,
                        pos + 1 + section_len(t, tag)->0,
                        t,
                        sv.push(
                            CameraNodeSectionV {
                                tag,
                                bytes: inp.subrange(pos + 1, pos + 1 + section_len(t, tag)->0),
                            },
                        ),
                    ));
                    assert(section_views(sections@) =~= sv.push(
                        CameraNodeSectionV {
                            tag,
                            bytes: inp.subrange(pos + 1, pos + 1 + section_len(t, tag)->0),
                        },
                    ));
                }
            },
        }
    }
}

/// Decode the camera section body: a run of tag-1 nodes ended by tag 0.
#[verifier::loop_isolation(false)]
fn cameras_from_reader(r: &mut LevelSetupReader) -> (res: Result<CameraNodeList, ParseError>)
    requires
        old(r).wf(),
    ensures
        final(r).input() == old(r).input(),
        final(r).wf(),
        match res {
            Ok(v) => {
                &&& dec_cameras(old(r).input(), old(r).pos(), Seq::empty()) == Some(
                    (v@, final(r).pos()),
                )
                &&& old(r).pos() < final(r).pos()
                &&& forall|i: int| 0 <= i < v@.len() ==> camera_valid(#[trigger] v@[i])
            },
            Err(_) => dec_cameras(old(r).input(), old(r).pos(), Seq::empty()) is None,
        },
{
    let ghost inp = old(r).input();
    let ghost p0 = old(r).pos();
    let mut nodes: Vec<CameraNode> = Vec::new();
    proof {
        assert(camera_views(nodes@) =~= Seq::<CameraNodeV>::empty());
    }
    loop
        invariant
            r.wf(),
            r.input() == inp,
            p0 <= r.pos(),
            dec_cameras(inp, p0, Seq::empty()) == dec_cameras(
                inp,
                r.pos(),
                camera_views(nodes@),
            ),
            forall|i: int| 0 <= i < nodes@.len() ==> camera_valid(#[trigger] camera_views(nodes@)[i]),
        decreases inp.len() - r.pos(),
    {
        let ghost pos = r.pos();
        let ghost nv = camera_views(nodes@);
        let cmd = match r.read_u8(Phase::Cameras) {
            Ok(v) => v,
            Err(e) => {
                proof {
                    assert(dec_cameras(inp, pos, nv) is None);
                }
                return Err(e);
            },
        };
        if cmd == 0 {
            let list = CameraNodeList { nodes };
            proof {
                assert(list@ =~= nv);
                assert(dec_cameras(inp, pos, nv) == Some((nv, pos + 1)));
            }
            return Ok(list);
        }
        if cmd != 1 {
            proof {
                assert(dec_cameras(inp, pos, nv) is None);
            }
            return Err(ParseError::new(Phase::Cameras, ErrorKind::UnexpectedByte, r.offset() - 1, cmd));
        }
        let idx = match r.read_i16(Phase::Cameras) {
            Ok(v) => v,
            Err(e) => {
                proof {
                    assert(dec_cameras(inp, pos, nv) is None);
                }
                return Err(e);
            },
        };
        if r.read_if_expected(2) {
            let t = match r.read_u8(Phase::Cameras) {
                Ok(v) => v,
                Err(e) => {
                    proof {
                        assert(dec_cameras(inp, pos, nv) is None);
                    }
                    return Err(e);
                },
            };
            if t > 4 {
                proof {
                    assert(dec_cameras(inp, pos, nv) is None);
                }
                return Err(
                    ParseError::new(Phase::Cameras, ErrorKind::UnexpectedByte, r.offset() - 1, t),
                );
            }
            if t == 0 {
                let node_ex = CameraNode { index: idx, camera_type: 0, sections: Vec::new() };
                let ghost nodev = CameraNodeV { index: idx, camera_type: 0, sections: Seq::empty() };
                proof {
                    assert(node_ex@ =~= nodev);
                }
                nodes.push(node_ex);
                proof {
                    assert(camera_views(nodes@) =~= nv.push(nodev));
                    assert(dec_cameras(inp, pos, nv) == dec_cameras(inp, pos + 5, nv.push(nodev)));
                }
            } else {
                let ghost spos = r.pos();
                let secs = match sections_from_reader(r, t) {
                    Ok(v) => v,
                    Err(e) => {
                        proof {
                            assert(dec_sections(inp, spos, t, Seq::empty()) is None);
                            assert(dec_cameras(inp, pos, nv) is None);
                        }
                        return Err(e);
                    },
                };
                let ghost sviews = section_views(secs@);
                let node = CameraNode { index: idx, camera_type: t, sections: secs };
                let ghost nodev = CameraNodeV { index: idx, camera_type: t, sections: sviews };
                nodes.push(node);
                proof {
                    assert(camera_views(nodes@) =~= nv.push(nodev));
                    assert(dec_cameras(inp, pos, nv) == dec_cameras(
                        inp,
                        r.pos(),
                        nv.push(nodev),
                    ));
                    assert(camera_valid(nodev));
                }
            }
        } else {
            let node_ex = CameraNode { index: idx, camera_type: 0, sections: Vec::new() };
            let ghost nodev = CameraNodeV { index: idx, camera_type: 0, sections: Seq::empty() };
            proof {
                assert(node_ex@ =~= nodev);
            }
            nodes.push(node_ex);
            proof {
                assert(camera_views(nodes@) =~= nv.push(nodev));
                assert(dec_cameras(inp, pos, nv) == dec_cameras(inp, pos + 3, nv.push(nodev)));
            }
        }
    }
}

/// Decode the lighting section body: a run of tag-1 nodes ended by tag
/// 0; all three inner gates are mandatory.
#[verifier::loop_isolation(false)]
fn lightings_from_reader(r: &mut LevelSetupReader) -> (res: Result<LightingNodeList, ParseError>)
    requires
        old(r).wf(),
    ensures
        final(r).input() == old(r).input(),
        final(r).wf(),
        match res {
            Ok(v) => {
                &&& dec_lightings(old(r).input(), old(r).pos(), Seq::empty()) == Some(
                    (v@, final(r).pos()),
                )
                &&& old(r).pos() < final(r).pos()
            },
            Err(_) => dec_lightings(old(r).input(), old(r).pos(), Seq::empty()) is None,
        },
{
    let ghost inp = old(r).input();
    let ghost p0 = old(r).pos();
    let mut nodes: Vec<LightingNode> = Vec::new();
    loop
        invariant
            r.wf(),
            r.input() == inp,
            p0 <= r.pos(),
            dec_lightings(inp, p0, Seq::empty()) == dec_lightings(inp, r.pos(), nodes@),
        decreases inp.len() - r.pos(),
    {
        let ghost pos = r.pos();
        let ghost nv = nodes@;
        let cmd = match r.read_u8(Phase::Lightings) {
            Ok(v) => v,
            Err(e) => {
                proof {
                    assert(dec_lightings(inp, pos, nv) is None);
                }
                return Err(e);
            },
        };
        if cmd == 0 {
            let list = LightingNodeList { nodes };
            proof {
                assert(dec_lightings(inp, pos, nv) == Some((nv, pos + 1)));
            }
            return Ok(list);
        }
        if cmd != 1 {
            proof {
                assert(dec_lightings(inp, pos, nv) is None);
            }
            return Err(
                ParseError::new(Phase::Lightings, ErrorKind::UnexpectedByte, r.offset() - 1, cmd),
            );
        }
        if !r.read_if_expected(2) {
            proof {
                assert(dec_lightings(inp, pos, nv) is None);
            }
            return Err(rejected_here(r, Phase::Lightings));
        }
        let px = match r.read_u32(Phase::Lightings) {
            Ok(v) => v,
            Err(e) => {
                proof {
                    assert(dec_lightings(inp, pos, nv) is None);
                }
                return Err(e);
            },
        };
        let py = match r.read_u32(Phase::Lightings) {
            Ok(v) => v,
            Err(e) => {
                proof {
                    assert(dec_lightings(inp, pos, nv) is None);
                }
                return Err(e);
            },
        };
        let pz = match r.read_u32(Phase::Lightings) {
            Ok(v) => v,
            Err(e) => {
                proof {
                    assert(dec_lightings(inp, pos, nv) is None);
                }
                return Err(e);
            },
        };
        if !r.read_if_expected(3) {
            proof {
                assert(dec_lightings(inp, pos, nv) is None);
            }
            return Err(rejected_here(r, Phase::Lightings));
        }
        let fx = match r.read_u32(Phase::Lightings) {
            Ok(v) => v,
            Err(e) => {
                proof {
                    assert(dec_lightings(inp, pos, nv) is None);
                }
                return Err(e);
            },
        };
        let fy = match r.read_u32(Phase::Lightings) {
            Ok(v) => v,
            Err(e) => {
                proof {
                    assert(dec_lightings(inp, pos, nv) is None);
                }
                return Err(e);
            },
        };
        if !r.read_if_expected(4) {
            proof {
                assert(dec_lightings(inp, pos, nv) is None);
            }
            return Err(rejected_here(r, Phase::Lightings));
        }
        let data = match r.read_u8_n(12, Phase::Lightings) {
            Ok(d) => d,
            Err(e) => {
                proof {
                    assert(dec_lightings(inp, pos, nv) is None);
                }
                return Err(e);
            },
        };
        let node = LightingNode {
            position: Vec3Bits { x: px, y: py, z: pz },
            flags: Vec2Bits { x: fx, y: fy },
            rgb: Rgb { r: data[3], g: data[7], b: data[11] },
        };
        nodes.push(node);
        proof {
            assert(data@[3] == inp[pos + 27]);
            assert(data@[7] == inp[pos + 31]);
            assert(data@[11] == inp[pos + 35]);
            assert(dec_lightings(inp, pos, nv) == dec_lightings(inp, pos + 36, nv.push(node)));
        }
    }
}

impl LevelSetup {
    /// Decode a whole level-setup file.  Succeeds exactly when the
    /// mathematical decoder accepts the input, and then returns exactly
    /// its value, which satisfies the structural invariants, the lattice
    /// volume invariant among them.
    pub fn from_bytes(in_bytes: &[u8]) -> (res: Result<LevelSetup, ParseError>)
        ensures
            res is Ok <==> dec_level(in_bytes@) is Some,
            res matches Ok(v) ==> {
                &&& Some(v@) == dec_level(in_bytes@)
                &&& level_valid(v@)
            },
    {
        let ghost inp = in_bytes@;
        let mut r = LevelSetupReader::new(in_bytes);
        if !r.read_if_expected(1) {
            proof {
                assert(dec_level(inp) is None);
            }
            return Err(rejected_here(&r, Phase::Voxels));
        }
        let vl = match voxel_list_from_reader(&mut r) {
            Ok(v) => v,
            Err(e) => {
                proof {
                    assert(dec_level(inp) is None);
                }
                return Err(e);
            },
        };
        let ghost j = r.pos();
        if !r.read_if_expected(3) {
            proof {
                assert(dec_level(inp) is None);
            }
            return Err(rejected_here(&r, Phase::Cameras));
        }
        let cams = match cameras_from_reader(&mut r) {
            Ok(v) => v,
            Err(e) => {
                proof {
                    assert(dec_level(inp) is None);
                }
                return Err(e);
            },
        };
        let ghost k = r.pos();
        if !r.read_if_expected(4) {
            proof {
                assert(dec_level(inp) is None);
            }
            return Err(rejected_here(&r, Phase::Lightings));
        }
        let lights = match lightings_from_reader(&mut r) {
            Ok(v) => v,
            Err(e) => {
                proof {
                    assert(dec_level(inp) is None);
                }
                return Err(e);
            },
        };
        let ghost m = r.pos();
        if !r.read_if_expected(0) {
            proof {
                assert(dec_level(inp) is None);
            }
            return Err(rejected_here(&r, Phase::Document));
        }
        if r.remaining() != 0 {
            proof {
                assert(m != inp.len() - 1);
                assert(dec_level(inp) is None);
            }
            return Err(rejected_here(&r, Phase::Document));
        }
        let ls = LevelSetup { voxel_list: vl, camera_nodes: cams, lighting_nodes: lights };
        proof {
            assert(ls@.voxel_list == vl@);
            assert(ls@.camera_nodes == cams@);
            assert(ls@.lighting_nodes == lights@);
            assert(dec_level(inp) == Some(ls@));
            assert(level_valid(ls@));
        }
        Ok(ls)
    }
}

} // verus!
