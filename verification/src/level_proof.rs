//! Round-trip laws of the level-setup codec.
//!
//! The central result: decoding the encoding of any structurally valid,
//! encodable, canonical level setup gives back exactly that value.  This
//! is the binary round trip: it makes the encoder and decoder mutual
//! inverses, so a file produced by the encoder decodes to the value it
//! was produced from, and re-encoding reproduces the file byte for byte.

use vstd::prelude::*;
use crate::bytes::{be32, be_i16, be_i32, lemma_be32_roundtrip, lemma_be_i16_roundtrip,
    lemma_be_i32_roundtrip};
use crate::level::{
    camera_valid, dec_cameras, dec_level, dec_lightings, dec_sections, dec_voxel, dec_voxel_list,
    dec_voxels, enc_camera, enc_camera_list, enc_cameras, enc_level, enc_lighting,
    enc_lighting_list, enc_lightings, enc_obj_block, enc_prop_block, enc_section, enc_sections,
    enc_voxel, enc_voxel_list, enc_voxels, lattice_volume, level_canonical, level_encodable,
    level_valid, obj_chunks, present_objects, prop_chunks, section_len, voxel_canonical,
    voxel_encodable, voxel_valid, CameraNodeSectionV, CameraNodeV, LevelSetupV, LightingNode,
    VoxelListV, VoxelV,
};

verus! {

/// A window of `b` that equals `e` makes every byte of `e` a byte of `b`.
proof fn lemma_window_index(b: Seq<u8>, i: int, e: Seq<u8>)
    requires
        0 <= i,
        i + e.len() <= b.len(),
        b.subrange(i, i + e.len()) == e,
    ensures
        forall|k: int| 0 <= k < e.len() ==> b[i + k] == e[k],
        e.len() > 0 ==> b[i] == e[0],
{
    assert forall|k: int| 0 <= k < e.len() implies b[i + k] == e[k] by {
        assert(e[k] == b.subrange(i, i + e.len())[k]);
    }
    if e.len() > 0 {
        assert(e[0] == b.subrange(i, i + e.len())[0]);
    }
}

/// A window within a window of `b` is the corresponding window of `e`.
proof fn lemma_window_sub(b: Seq<u8>, i: int, e: Seq<u8>, a: int, c: int)
    requires
        0 <= i,
        i + e.len() <= b.len(),
        b.subrange(i, i + e.len()) == e,
        0 <= a <= c <= e.len(),
    ensures
        b.subrange(i + a, i + c) == e.subrange(a, c),
{
    lemma_window_index(b, i, e);
    assert(b.subrange(i + a, i + c) =~= e.subrange(a, c));
}

/// Flattening records of one uniform width `k` gives a sequence whose
/// `j`-th `k`-byte window is the `j`-th record.
proof fn lemma_flatten_uniform(s: Seq<Seq<u8>>, k: nat)
    requires
        forall|j: int| 0 <= j < s.len() ==> (#[trigger] s[j]).len() == k,
    ensures
        s.flatten().len() == k * s.len(),
        forall|j: int|
            0 <= j < s.len() ==> s.flatten().subrange(k * j, k * (j + 1)) == s[j],
    decreases s.len(),
{
    if s.len() == 0 {
        assert(s.flatten() =~= Seq::<u8>::empty());
        assert(k * 0 == 0) by (nonlinear_arith);
    } else {
        let rest = s.drop_first();
        lemma_flatten_uniform(rest, k);
        assert(s.flatten() == s[0] + rest.flatten());
        assert(k * s.len() == k + k * rest.len()) by (nonlinear_arith)
            requires
                s.len() == rest.len() + 1,
        ;
        assert(s.flatten().len() == k * s.len());
        assert forall|j: int|
            0 <= j < s.len() implies s.flatten().subrange(k * j, k * (j + 1)) == s[j] by {
            if j == 0 {
                assert(k * 0 == 0) by (nonlinear_arith);
                assert(k * 1 == k) by (nonlinear_arith);
                assert(s.flatten().subrange(0, k as int) =~= s[0]);
            } else {
                assert(rest[j - 1] == s[j]);
                assert(rest.flatten().subrange(k * (j - 1), k * j) == rest[j - 1]);
                assert(k * (j + 1) == k * j + k) by (nonlinear_arith);
                assert(k * j == k * (j - 1) + k) by (nonlinear_arith);
                assert(0 <= k * (j - 1)) by (nonlinear_arith)
                    requires
                        j >= 1,
                ;
                assert(k * (j - 1) + k <= k * rest.len()) by (nonlinear_arith)
                    requires
                        j <= rest.len(),
                ;
                assert(s.flatten().subrange(k * j, k * (j + 1)) =~= rest.flatten().subrange(
                    k * (j - 1),
                    k * j,
                ));
            }
        }
    }
}

/// When every slot is present, the present records are exactly the
/// slots' payloads.
proof fn lemma_present_all_some(s: Seq<Option<Seq<u8>>>)
    requires
        forall|i: int| 0 <= i < s.len() ==> (#[trigger] s[i]) is Some,
    ensures
        present_objects(s).len() == s.len(),
        forall|i: int| 0 <= i < s.len() ==> present_objects(s)[i] == (#[trigger] s[i])->0,
    decreases s.len(),
{
    if s.len() > 0 {
        lemma_present_all_some(s.drop_first());
        assert(present_objects(s) == seq![s[0]->0] + present_objects(s.drop_first()));
        assert forall|i: int|
            0 <= i < s.len() implies present_objects(s)[i] == (#[trigger] s[i])->0 by {
            if i > 0 {
                assert(s.drop_first()[i - 1] == s[i]);
            }
        }
    }
}

/// Decoding the encoding of one canonical voxel yields that voxel.
proof fn lemma_dec_voxel_enc(b: Seq<u8>, i: int, v: VoxelV)
    requires
        voxel_valid(v),
        voxel_encodable(v),
        voxel_canonical(v),
        0 <= i,
        i + enc_voxel(v).len() <= b.len(),
        b.subrange(i, i + enc_voxel(v).len()) == enc_voxel(v),
    ensures
        dec_voxel(b, i, Seq::empty(), Seq::empty()) == Some((v, i + enc_voxel(v).len())),
{
    let ob = enc_obj_block(v.objects);
    let pb = enc_prop_block(v.props);
    let e = enc_voxel(v);
    assert(e == ob + pb + seq![1u8]);
    lemma_window_index(b, i, e);
    // --- the object group ---
    let i2 = i + ob.len();
    let oacc: Seq<Option<Seq<u8>>>;
    if v.objects.len() == 0 {
        assert(ob =~= Seq::<u8>::empty());
        oacc = Seq::empty();
        assert(dec_voxel(b, i, Seq::empty(), Seq::empty()) == dec_voxel(
            b,
            i2,
            Seq::empty(),
            Seq::empty(),
        ));
        assert(oacc =~= v.objects);
    } else {
        let p = present_objects(v.objects);
        if p.len() == 0 {
            // Canonical: a voxel with no present record holds exactly
            // one empty slot.
            if forall|k: int| 0 <= k < v.objects.len() ==> (#[trigger] v.objects[k]) is Some {
                lemma_present_all_some(v.objects);
                assert(false);
            }
            assert(v.objects == seq![Option::<Seq<u8>>::None]);
            assert(ob =~= seq![3u8, 0x0Au8, 0u8]);
            assert(e[0] == 3 && e[1] == 0x0A && e[2] == 0);
            assert(b[i] == 3 && b[i + 1] == 0x0A && b[i + 2] == 0);
            oacc = Seq::<Option<Seq<u8>>>::empty().push(Option::None);
            assert(dec_voxel(b, i, Seq::empty(), Seq::empty()) == dec_voxel(
                b,
                i + 3,
                oacc,
                Seq::empty(),
            ));
            assert(i2 == i + 3);
            assert(oacc =~= v.objects);
        } else {
            // Canonical: some record is present, so every slot is.
            if v.objects == seq![Option::<Seq<u8>>::None] {
                assert(seq![Option::<Seq<u8>>::None].drop_first() =~= Seq::<
                    Option<Seq<u8>>,
                >::empty());
                assert(present_objects(Seq::<Option<Seq<u8>>>::empty()) == Seq::<
                    Seq<u8>,
                >::empty());
                assert(present_objects(seq![Option::<Seq<u8>>::None]) =~= Seq::<Seq<u8>>::empty());
                assert(false);
            }
            assert(forall|k: int| 0 <= k < v.objects.len() ==> (#[trigger] v.objects[k]) is Some);
            lemma_present_all_some(v.objects);
            let n = p.len() as int;
            assert forall|j: int| 0 <= j < p.len() implies (#[trigger] p[j]).len() == 20 by {
                assert(p[j] == v.objects[j]->0);
                assert(v.objects[j] is Some);
            }
            lemma_flatten_uniform(p, 20);
            assert(ob == seq![3u8, 0x0Au8, n as u8] + (seq![0x0Bu8] + p.flatten()));
            assert(ob.len() == 4 + 20 * n);
            assert(e[0] == 3 && e[1] == 0x0A && e[2] == n as u8 && e[3] == 0x0B);
            assert(b[i] == 3 && b[i + 1] == 0x0A);
            assert(b[i + 2] == n as u8);
            assert((n as u8) as int == n);
            assert(b[i + 3] == 0x0B);
            // Every stored record window is the matching present record.
            lemma_window_sub(b, i, e, 4, 4 + 20 * n);
            let fl = p.flatten();
            assert(e.subrange(4, 4 + 20 * n) =~= fl);
            assert(b.subrange(i + 4, i + 4 + 20 * n) == fl);
            assert forall|j: int|
                0 <= j < n implies obj_chunks(b, i + 4, n)[j] == v.objects[j] by {
                assert(0 <= 20 * j) by (nonlinear_arith)
                    requires
                        j >= 0,
                ;
                assert(20 * (j + 1) == 20 * j + 20) by (nonlinear_arith);
                assert(20 * (j + 1) <= 20 * n) by (nonlinear_arith)
                    requires
                        j < n,
                ;
                lemma_window_sub(b, i + 4, fl, 20 * j, 20 * (j + 1));
                assert(fl.subrange(20 * j, 20 * (j + 1)) == p[j]);
                assert(obj_chunks(b, i + 4, n)[j] == Some(b.subrange(
                    i + 4 + 20 * j,
                    i + 4 + 20 * (j + 1),
                )));
                assert(b.subrange(i + 4 + 20 * j, i + 4 + 20 * (j + 1)) =~= b.subrange(
                    i + 4,
                    i + 4 + 20 * n,
                ).subrange(20 * j, 20 * (j + 1)));
                assert(p[j] == v.objects[j]->0);
            }
            oacc = Seq::<Option<Seq<u8>>>::empty() + obj_chunks(b, i + 4, n);
            assert(dec_voxel(b, i, Seq::empty(), Seq::empty()) == dec_voxel(
                b,
                i + 4 + 20 * n,
                oacc,
                Seq::empty(),
            ));
            assert(i2 == i + 4 + 20 * n);
            assert(oacc =~= v.objects);
        }
    }
    assert(oacc == v.objects);
    // --- the prop group ---
    let i3 = i2 + pb.len();
    if v.props.len() == 0 {
        assert(pb =~= Seq::<u8>::empty());
        assert(i3 == i2);
        assert(v.props =~= Seq::<Seq<u8>>::empty());
    } else {
        let n2 = v.props.len() as int;
        assert(forall|j: int| 0 <= j < v.props.len() ==> (#[trigger] v.props[j]).len() == 16);
        lemma_flatten_uniform(v.props, 16);
        assert(pb == seq![8u8, n2 as u8, 9u8] + v.props.flatten());
        assert(pb.len() == 3 + 16 * n2);
        assert(e[ob.len() as int] == 8);
        assert(e[ob.len() as int + 1] == n2 as u8);
        assert(e[ob.len() as int + 2] == 9);
        assert(b[i + ob.len() as int] == e[ob.len() as int]);
        assert(b[i + ob.len() as int + 1] == e[ob.len() as int + 1]);
        assert(b[i + ob.len() as int + 2] == e[ob.len() as int + 2]);
        assert(b[i2] == 8);
        assert(b[i2 + 1] == n2 as u8);
        assert((n2 as u8) as int == n2);
        assert(b[i2 + 2] == 9);
        lemma_window_sub(b, i, e, ob.len() as int + 3, ob.len() as int + 3 + 16 * n2);
        let fl2 = v.props.flatten();
        assert(e.subrange(ob.len() as int + 3, ob.len() as int + 3 + 16 * n2) =~= fl2);
        assert(b.subrange(i2 + 3, i2 + 3 + 16 * n2) == fl2);
        assert forall|j: int| 0 <= j < n2 implies prop_chunks(b, i2 + 3, n2)[j] == v.props[j] by {
            assert(0 <= 16 * j) by (nonlinear_arith)
                requires
                    j >= 0,
            ;
            assert(16 * (j + 1) == 16 * j + 16) by (nonlinear_arith);
            assert(16 * (j + 1) <= 16 * n2) by (nonlinear_arith)
                requires
                    j < n2,
            ;
            lemma_window_sub(b, i2 + 3, fl2, 16 * j, 16 * (j + 1));
            assert(fl2.subrange(16 * j, 16 * (j + 1)) == v.props[j]);
            assert(b.subrange(i2 + 3 + 16 * j, i2 + 3 + 16 * (j + 1)) =~= b.subrange(
                i2 + 3,
                i2 + 3 + 16 * n2,
            ).subrange(16 * j, 16 * (j + 1)));
        }
        assert(Seq::<Seq<u8>>::empty() + prop_chunks(b, i2 + 3, n2) =~= v.props);
        assert(dec_voxel(b, i2, oacc, Seq::empty()) == dec_voxel(
            b,
            i2 + 3 + 16 * n2,
            oacc,
            Seq::<Seq<u8>>::empty() + prop_chunks(b, i2 + 3, n2),
        ));
        assert(i3 == i2 + 3 + 16 * n2);
    }
    // --- the terminator ---
    assert(e[ob.len() as int + pb.len() as int] == 1);
    assert(b[i + ob.len() as int + pb.len() as int] == e[ob.len() as int + pb.len() as int]);
    assert(i3 == i + ob.len() + pb.len());
    assert(b[i3] == 1);
    assert(dec_voxel(b, i3, v.objects, v.props) == Some((VoxelV { objects: v.objects, props: v.props }, i3 + 1)));
    assert((VoxelV { objects: v.objects, props: v.props }) =~= v);
    assert(i3 + 1 == i + e.len());
}

/// Decoding the encoding of a run of canonical voxels yields them all.
proof fn lemma_dec_voxels_enc(b: Seq<u8>, i: int, vs: Seq<VoxelV>, acc: Seq<VoxelV>)
    requires
        forall|j: int|
            0 <= j < vs.len() ==> voxel_valid(#[trigger] vs[j]) && voxel_encodable(vs[j])
                && voxel_canonical(vs[j]),
        0 <= i,
        i + enc_voxels(vs).len() <= b.len(),
        b.subrange(i, i + enc_voxels(vs).len()) == enc_voxels(vs),
    ensures
        dec_voxels(b, i, vs.len(), acc) == Some((acc + vs, i + enc_voxels(vs).len())),
    decreases vs.len(),
{
    if vs.len() == 0 {
        assert(enc_voxels(vs) =~= Seq::<u8>::empty());
        assert(dec_voxels(b, i, 0, acc) == Some((acc, i)));
        assert(acc + vs =~= acc);
    } else {
        let e = enc_voxels(vs);
        let e0 = enc_voxel(vs[0]);
        let rest = vs.drop_first();
        assert(e == e0 + enc_voxels(rest));
        lemma_window_sub(b, i, e, 0, e0.len() as int);
        assert(e.subrange(0, e0.len() as int) =~= e0);
        lemma_dec_voxel_enc(b, i, vs[0]);
        lemma_window_sub(b, i, e, e0.len() as int, e.len() as int);
        assert(e.subrange(e0.len() as int, e.len() as int) =~= enc_voxels(rest));
        assert forall|j: int|
            0 <= j < rest.len() implies voxel_valid(#[trigger] rest[j]) && voxel_encodable(rest[j])
                && voxel_canonical(rest[j]) by {
            assert(rest[j] == vs[j + 1]);
        }
        lemma_dec_voxels_enc(b, i + e0.len(), rest, acc.push(vs[0]));
        assert(dec_voxels(b, i, vs.len(), acc) == dec_voxels(
            b,
            i + e0.len(),
            (vs.len() - 1) as nat,
            acc.push(vs[0]),
        ));
        assert(acc.push(vs[0]) + rest =~= acc + vs);
    }
}

/// Decoding the encoding of a section run (and its terminator) yields
/// the sections.
proof fn lemma_dec_sections_enc(
    b: Seq<u8>,
    i: int,
    t: u8,
    ss: Seq<CameraNodeSectionV>,
    acc: Seq<CameraNodeSectionV>,
)
    requires
        forall|j: int|
            0 <= j < ss.len() ==> section_len(t, (#[trigger] ss[j]).tag) == Some(
                ss[j].bytes.len() as int,
            ),
        0 <= i,
        i + enc_sections(ss).len() + 1 <= b.len(),
        b.subrange(i, i + enc_sections(ss).len() + 1) == enc_sections(ss) + seq![0u8],
    ensures
        dec_sections(b, i, t, acc) == Some((acc + ss, i + enc_sections(ss).len() + 1)),
    decreases ss.len(),
{
    let e = enc_sections(ss) + seq![0u8];
    lemma_window_index(b, i, e);
    if ss.len() == 0 {
        assert(enc_sections(ss) =~= Seq::<u8>::empty());
        assert(e[0] == 0);
        assert(b[i] == 0);
        assert(dec_sections(b, i, t, acc) == Some((acc, i + 1)));
        assert(acc + ss =~= acc);
    } else {
        let s0 = ss[0];
        let e0 = enc_section(s0);
        let rest = ss.drop_first();
        assert(enc_sections(ss) == e0 + enc_sections(rest));
        let len0 = s0.bytes.len() as int;
        assert(section_len(t, s0.tag) == Some(len0));
        assert(s0.tag != 0);
        assert(e0 == seq![s0.tag] + s0.bytes);
        assert(e[0] == s0.tag);
        assert(b[i] == s0.tag);
        lemma_window_sub(b, i, e, 1, 1 + len0);
        assert(e.subrange(1, 1 + len0) =~= s0.bytes);
        assert(b.subrange(i + 1, i + 1 + len0) == s0.bytes);
        assert((CameraNodeSectionV { tag: b[i], bytes: b.subrange(i + 1, i + 1 + len0) }) =~= s0);
        assert(dec_sections(b, i, t, acc) == dec_sections(b, i + 1 + len0, t, acc.push(s0)));
        lemma_window_sub(b, i, e, 1 + len0, e.len() as int);
        assert(e.subrange(1 + len0, e.len() as int) =~= enc_sections(rest) + seq![0u8]);
        assert forall|j: int|
            0 <= j < rest.len() implies section_len(t, (#[trigger] rest[j]).tag) == Some(
                rest[j].bytes.len() as int,
            ) by {
            assert(rest[j] == ss[j + 1]);
        }
        lemma_dec_sections_enc(b, i + 1 + len0, t, rest, acc.push(s0));
        assert(acc.push(s0) + rest =~= acc + ss);
    }
}

/// Decoding the encoding of a camera node run (and its terminator)
/// yields the nodes.
proof fn lemma_dec_cameras_enc(b: Seq<u8>, i: int, ns: Seq<CameraNodeV>, acc: Seq<CameraNodeV>)
    requires
        forall|j: int| 0 <= j < ns.len() ==> camera_valid(#[trigger] ns[j]),
        0 <= i,
        i + enc_cameras(ns).len() + 1 <= b.len(),
        b.subrange(i, i + enc_cameras(ns).len() + 1) == enc_cameras(ns) + seq![0u8],
    ensures
        dec_cameras(b, i, acc) == Some((acc + ns, i + enc_cameras(ns).len() + 1)),
    decreases ns.len(),
{
    let e = enc_cameras(ns) + seq![0u8];
    lemma_window_index(b, i, e);
    if ns.len() == 0 {
        assert(enc_cameras(ns) =~= Seq::<u8>::empty());
        assert(e[0] == 0);
        assert(b[i] == 0);
        assert(dec_cameras(b, i, acc) == Some((acc, i + 1)));
        assert(acc + ns =~= acc);
    } else {
        let n0 = ns[0];
        let e0 = enc_camera(n0);
        let rest = ns.drop_first();
        assert(enc_cameras(ns) == e0 + enc_cameras(rest));
        let tail: Seq<u8> = if n0.camera_type == 0 {
            Seq::<u8>::empty()
        } else {
            enc_sections(n0.sections) + seq![0u8]
        };
        assert(e0 == seq![1u8] + be_i16(n0.index) + seq![2u8, n0.camera_type] + tail);
        lemma_be_i16_roundtrip(n0.index);
        assert(e[0] == 1);
        assert(b[i] == 1);
        assert(e[1] == be_i16(n0.index)[0]);
        assert(e[2] == be_i16(n0.index)[1]);
        assert(b[i + 1] == e[1] && b[i + 2] == e[2]);
        assert(crate::bytes::i16v(b[i + 1], b[i + 2]) == n0.index);
        assert(e[3] == 2);
        assert(e[4] == n0.camera_type);
        assert(b[i + 3] == 2 && b[i + 4] == n0.camera_type);
        assert(camera_valid(n0));
        let j: int;
        if n0.camera_type == 0 {
            assert(e0.len() == 5);
            assert(n0.sections.len() == 0);
            assert((CameraNodeV {
                index: crate::bytes::i16v(b[i + 1], b[i + 2]),
                camera_type: 0,
                sections: Seq::empty(),
            }) =~= n0);
            j = i + 5;
            assert(dec_cameras(b, i, acc) == dec_cameras(b, j, acc.push(n0)));
        } else {
            assert(e0.len() == 5 + enc_sections(n0.sections).len() + 1);
            lemma_window_sub(b, i, e, 5, 5 + enc_sections(n0.sections).len() as int + 1);
            assert(e.subrange(5, 5 + enc_sections(n0.sections).len() as int + 1) =~= enc_sections(
                n0.sections,
            ) + seq![0u8]);
            lemma_dec_sections_enc(b, i + 5, n0.camera_type, n0.sections, Seq::empty());
            assert(Seq::<CameraNodeSectionV>::empty() + n0.sections =~= n0.sections);
            j = i + 5 + enc_sections(n0.sections).len() + 1;
            assert(dec_sections(b, i + 5, n0.camera_type, Seq::empty()) == Some((n0.sections, j)));
            assert((CameraNodeV {
                index: crate::bytes::i16v(b[i + 1], b[i + 2]),
                camera_type: n0.camera_type,
                sections: n0.sections,
            }) =~= n0);
            assert(i < j <= b.len());
            assert(dec_cameras(b, i, acc) == dec_cameras(b, j, acc.push(n0)));
        }
        assert(j == i + e0.len());
        lemma_window_sub(b, i, e, e0.len() as int, e.len() as int);
        assert(e.subrange(e0.len() as int, e.len() as int) =~= enc_cameras(rest) + seq![0u8]);
        assert forall|k: int| 0 <= k < rest.len() implies camera_valid(#[trigger] rest[k]) by {
            assert(rest[k] == ns[k + 1]);
        }
        lemma_dec_cameras_enc(b, j, rest, acc.push(n0));
        assert(acc.push(n0) + rest =~= acc + ns);
    }
}

/// Decoding the encoding of a lighting node run (and its terminator)
/// yields the nodes.
#[verifier::rlimit(100)]
proof fn lemma_dec_lightings_enc(b: Seq<u8>, i: int, ns: Seq<LightingNode>, acc: Seq<LightingNode>)
    requires
        0 <= i,
        i + enc_lightings(ns).len() + 1 <= b.len(),
        b.subrange(i, i + enc_lightings(ns).len() + 1) == enc_lightings(ns) + seq![0u8],
    ensures
        dec_lightings(b, i, acc) == Some((acc + ns, i + enc_lightings(ns).len() + 1)),
    decreases ns.len(),
{
    let e = enc_lightings(ns) + seq![0u8];
    lemma_window_index(b, i, e);
    if ns.len() == 0 {
        assert(enc_lightings(ns) =~= Seq::<u8>::empty());
        assert(e[0] == 0);
        assert(b[i] == 0);
        assert(dec_lightings(b, i, acc) == Some((acc, i + 1)));
        assert(acc + ns =~= acc);
    } else {
        let n0 = ns[0];
        let e0 = enc_lighting(n0);
        let rest = ns.drop_first();
        assert(enc_lightings(ns) == e0 + enc_lightings(rest));
        let px = be32(n0.position.x);
        let py = be32(n0.position.y);
        let pz = be32(n0.position.z);
        let fx = be32(n0.flags.x);
        let fy = be32(n0.flags.y);
        assert(e0 == seq![1u8, 2u8] + px + py + pz + seq![3u8] + fx + fy + seq![
            4u8,
            0u8,
            0u8,
            0u8,
            n0.rgb.r,
            0u8,
            0u8,
            0u8,
            n0.rgb.g,
            0u8,
            0u8,
            0u8,
            n0.rgb.b,
        ]);
        assert(e0.len() == 36);
        lemma_be32_roundtrip(n0.position.x);
        lemma_be32_roundtrip(n0.position.y);
        lemma_be32_roundtrip(n0.position.z);
        lemma_be32_roundtrip(n0.flags.x);
        lemma_be32_roundtrip(n0.flags.y);
        assert(e[0] == 1 && e[1] == 2);
        assert(b[i] == 1 && b[i + 1] == 2);
        assert(e[2] == px[0] && e[3] == px[1] && e[4] == px[2] && e[5] == px[3]);
        assert(e[6] == py[0] && e[7] == py[1] && e[8] == py[2] && e[9] == py[3]);
        assert(e[10] == pz[0] && e[11] == pz[1] && e[12] == pz[2] && e[13] == pz[3]);
        assert(e[14] == 3);
        assert(e[15] == fx[0] && e[16] == fx[1] && e[17] == fx[2] && e[18] == fx[3]);
        assert(e[19] == fy[0] && e[20] == fy[1] && e[21] == fy[2] && e[22] == fy[3]);
        assert(e[23] == 4);
        assert(e[27] == n0.rgb.r && e[31] == n0.rgb.g && e[35] == n0.rgb.b);
        assert(b[i + 2] == e[2] && b[i + 3] == e[3] && b[i + 4] == e[4] && b[i + 5] == e[5]);
        assert(b[i + 6] == e[6] && b[i + 7] == e[7] && b[i + 8] == e[8] && b[i + 9] == e[9]);
        assert(b[i + 10] == e[10] && b[i + 11] == e[11] && b[i + 12] == e[12]);
        assert(b[i + 13] == e[13]);
        assert(b[i + 14] == 3);
        assert(b[i + 15] == e[15] && b[i + 16] == e[16] && b[i + 17] == e[17]);
        assert(b[i + 18] == e[18]);
        assert(b[i + 19] == e[19] && b[i + 20] == e[20] && b[i + 21] == e[21]);
        assert(b[i + 22] == e[22]);
        assert(b[i + 23] == 4);
        assert(b[i + 27] == n0.rgb.r && b[i + 31] == n0.rgb.g && b[i + 35] == n0.rgb.b);
        let node = LightingNode {
            position: crate::level::Vec3Bits {
                x: crate::bytes::u32v(b[i + 2], b[i + 3], b[i + 4], b[i + 5]),
                y: crate::bytes::u32v(b[i + 6], b[i + 7], b[i + 8], b[i + 9]),
                z: crate::bytes::u32v(b[i + 10], b[i + 11], b[i + 12], b[i + 13]),
            },
            flags: crate::level::Vec2Bits {
                x: crate::bytes::u32v(b[i + 15], b[i + 16], b[i + 17], b[i + 18]),
                y: crate::bytes::u32v(b[i + 19], b[i + 20], b[i + 21], b[i + 22]),
            },
            rgb: crate::level::Rgb { r: b[i + 27], g: b[i + 31], b: b[i + 35] },
        };
        assert(node == n0);
        assert(dec_lightings(b, i, acc) == dec_lightings(b, i + 36, acc.push(n0)));
        lemma_window_sub(b, i, e, 36, e.len() as int);
        assert(e.subrange(36, e.len() as int) =~= enc_lightings(rest) + seq![0u8]);
        lemma_dec_lightings_enc(b, i + 36, rest, acc.push(n0));
        assert(acc.push(n0) + rest =~= acc + ns);
    }
}

/// Decoding the encoding of a valid voxel section yields it.
proof fn lemma_dec_voxel_list_enc(b: Seq<u8>, i: int, vl: VoxelListV)
    requires
        vl.start_position.x <= vl.end_position.x,
        vl.start_position.y <= vl.end_position.y,
        vl.start_position.z <= vl.end_position.z,
        vl.voxels.len() == lattice_volume(vl.start_position, vl.end_position),
        forall|j: int|
            0 <= j < vl.voxels.len() ==> voxel_valid(#[trigger] vl.voxels[j]) && voxel_encodable(
                vl.voxels[j],
            ) && voxel_canonical(vl.voxels[j]),
        0 <= i,
        i + enc_voxel_list(vl).len() - 1 <= b.len(),
        b.subrange(i, i + enc_voxel_list(vl).len() - 1) == enc_voxel_list(vl).subrange(
            1,
            enc_voxel_list(vl).len() as int,
        ),
    ensures
        dec_voxel_list(b, i) == Some((vl, i + enc_voxel_list(vl).len() - 1)),
{
    let s = vl.start_position;
    let e3 = vl.end_position;
    let body = seq![1u8] + be_i32(s.x) + be_i32(s.y) + be_i32(s.z) + be_i32(e3.x) + be_i32(e3.y)
        + be_i32(e3.z) + enc_voxels(vl.voxels) + seq![0u8];
    assert(enc_voxel_list(vl).subrange(1, enc_voxel_list(vl).len() as int) =~= body);
    assert(b.subrange(i, i + body.len()) == body);
    lemma_window_index(b, i, body);
    lemma_be_i32_roundtrip(s.x);
    lemma_be_i32_roundtrip(s.y);
    lemma_be_i32_roundtrip(s.z);
    lemma_be_i32_roundtrip(e3.x);
    lemma_be_i32_roundtrip(e3.y);
    lemma_be_i32_roundtrip(e3.z);
    assert(body[0] == 1);
    assert(b[i] == 1);
    let bsx = be_i32(s.x);
    let bsy = be_i32(s.y);
    let bsz = be_i32(s.z);
    let bex = be_i32(e3.x);
    let bey = be_i32(e3.y);
    let bez = be_i32(e3.z);
    assert(body[1] == bsx[0] && body[2] == bsx[1] && body[3] == bsx[2] && body[4] == bsx[3]);
    assert(body[5] == bsy[0] && body[6] == bsy[1] && body[7] == bsy[2] && body[8] == bsy[3]);
    assert(body[9] == bsz[0] && body[10] == bsz[1] && body[11] == bsz[2] && body[12] == bsz[3]);
    assert(body[13] == bex[0] && body[14] == bex[1] && body[15] == bex[2] && body[16] == bex[3]);
    assert(body[17] == bey[0] && body[18] == bey[1] && body[19] == bey[2] && body[20] == bey[3]);
    assert(body[21] == bez[0] && body[22] == bez[1] && body[23] == bez[2] && body[24] == bez[3]);
    assert(crate::bytes::i32v(b[i + 1], b[i + 2], b[i + 3], b[i + 4]) == s.x);
    assert(crate::bytes::i32v(b[i + 5], b[i + 6], b[i + 7], b[i + 8]) == s.y);
    assert(crate::bytes::i32v(b[i + 9], b[i + 10], b[i + 11], b[i + 12]) == s.z);
    assert(crate::bytes::i32v(b[i + 13], b[i + 14], b[i + 15], b[i + 16]) == e3.x);
    assert(crate::bytes::i32v(b[i + 17], b[i + 18], b[i + 19], b[i + 20]) == e3.y);
    assert(crate::bytes::i32v(b[i + 21], b[i + 22], b[i + 23], b[i + 24]) == e3.z);
    let vlen = enc_voxels(vl.voxels).len() as int;
    lemma_window_sub(b, i, body, 25, 25 + vlen);
    assert(body.subrange(25, 25 + vlen) =~= enc_voxels(vl.voxels));
    lemma_dec_voxels_enc(b, i + 25, vl.voxels, Seq::empty());
    assert(Seq::<VoxelV>::empty() + vl.voxels =~= vl.voxels);
    assert(dec_voxels(b, i + 25, vl.voxels.len(), Seq::empty()) == Some(
        (vl.voxels, i + 25 + vlen),
    ));
    assert(lattice_volume(s, e3) as nat == vl.voxels.len());
    assert(body[25 + vlen] == 0);
    assert(b[i + 25 + vlen] == 0);
    assert(i + 25 + vlen < b.len());
    assert((VoxelListV { start_position: s, end_position: e3, voxels: vl.voxels }) =~= vl);
    assert(dec_voxel_list(b, i) == Some((vl, i + 25 + vlen + 1)));
    assert(i + 25 + vlen + 1 == i + enc_voxel_list(vl).len() - 1);
}

/// The voxel section of an encoded level decodes to its voxel list.
proof fn lemma_level_part_voxels(l: LevelSetupV)
    requires
        level_valid(l),
        level_encodable(l),
        level_canonical(l),
    ensures
        enc_level(l).len() == enc_voxel_list(l.voxel_list).len() + enc_camera_list(
            l.camera_nodes,
        ).len() + enc_lighting_list(l.lighting_nodes).len() + 1,
        enc_level(l)[0] == 1,
        dec_voxel_list(enc_level(l), 1) == Some(
            (l.voxel_list, enc_voxel_list(l.voxel_list).len() as int),
        ),
{
    let b = enc_level(l);
    let evl = enc_voxel_list(l.voxel_list);
    let ecl = enc_camera_list(l.camera_nodes);
    let ell = enc_lighting_list(l.lighting_nodes);
    assert(b == evl + ecl + ell + seq![0u8]);
    assert(evl[0] == 1);
    assert(b[0] == evl[0]);
    assert(b.subrange(1, evl.len() as int) =~= evl.subrange(1, evl.len() as int));
    lemma_dec_voxel_list_enc(b, 1, l.voxel_list);
}

/// The camera section of an encoded level decodes to its camera nodes.
proof fn lemma_level_part_cameras(l: LevelSetupV)
    requires
        level_valid(l),
    ensures
        enc_level(l)[enc_voxel_list(l.voxel_list).len() as int] == 3,
        dec_cameras(enc_level(l), enc_voxel_list(l.voxel_list).len() as int + 1, Seq::empty())
            == Some(
            (
                l.camera_nodes,
                (enc_voxel_list(l.voxel_list).len() + enc_camera_list(
                    l.camera_nodes,
                ).len()) as int,
            ),
        ),
{
    let b = enc_level(l);
    let evl = enc_voxel_list(l.voxel_list);
    let ecl = enc_camera_list(l.camera_nodes);
    let ell = enc_lighting_list(l.lighting_nodes);
    assert(b == evl + ecl + ell + seq![0u8]);
    assert(ecl == seq![3u8] + enc_cameras(l.camera_nodes) + seq![0u8]);
    assert(ecl[0] == 3);
    assert(b[evl.len() as int] == ecl[0]);
    assert(b.subrange(
        evl.len() as int + 1,
        evl.len() + enc_cameras(l.camera_nodes).len() + 2int,
    ) =~= enc_cameras(l.camera_nodes) + seq![0u8]);
    lemma_dec_cameras_enc(b, evl.len() as int + 1, l.camera_nodes, Seq::empty());
    assert(Seq::<CameraNodeV>::empty() + l.camera_nodes =~= l.camera_nodes);
}

/// The lighting section of an encoded level decodes to its lighting
/// nodes, and the command-0 end of file closes the level exactly.
proof fn lemma_level_part_lightings(l: LevelSetupV)
    ensures
        enc_level(l)[(enc_voxel_list(l.voxel_list).len() + enc_camera_list(
            l.camera_nodes,
        ).len()) as int] == 4,
        dec_lightings(
            enc_level(l),
            (enc_voxel_list(l.voxel_list).len() + enc_camera_list(l.camera_nodes).len()) as int
                + 1,
            Seq::empty(),
        ) == Some((l.lighting_nodes, enc_level(l).len() - 1)),
        enc_level(l)[enc_level(l).len() - 1] == 0,
{
    let b = enc_level(l);
    let evl = enc_voxel_list(l.voxel_list);
    let ecl = enc_camera_list(l.camera_nodes);
    let ell = enc_lighting_list(l.lighting_nodes);
    assert(b == evl + ecl + ell + seq![0u8]);
    assert(ell == seq![4u8] + enc_lightings(l.lighting_nodes) + seq![0u8]);
    assert(ell[0] == 4);
    let k = (evl.len() + ecl.len()) as int;
    assert(b[k] == ell[0]);
    assert(b.subrange(k + 1, k + enc_lightings(l.lighting_nodes).len() + 2int) =~= enc_lightings(
        l.lighting_nodes,
    ) + seq![0u8]);
    lemma_dec_lightings_enc(b, k + 1, l.lighting_nodes, Seq::empty());
    assert(Seq::<LightingNode>::empty() + l.lighting_nodes =~= l.lighting_nodes);
    assert(b[b.len() - 1] == 0);
}

/// Binary round trip: decoding the encoding of a structurally valid,
/// encodable, canonical level setup gives back exactly that value.  It
/// follows that a file the encoder produced decodes successfully and
/// re-encodes byte for byte.
pub proof fn lemma_level_round_trip(l: LevelSetupV)
    requires
        level_valid(l),
        level_encodable(l),
        level_canonical(l),
    ensures
        dec_level(enc_level(l)) == Some(l),
{
    let b = enc_level(l);
    let evl = enc_voxel_list(l.voxel_list);
    let ecl = enc_camera_list(l.camera_nodes);
    let ell = enc_lighting_list(l.lighting_nodes);
    lemma_level_part_voxels(l);
    lemma_level_part_cameras(l);
    lemma_level_part_lightings(l);
    assert((LevelSetupV {
        voxel_list: l.voxel_list,
        camera_nodes: l.camera_nodes,
        lighting_nodes: l.lighting_nodes,
    }) =~= l);
}

/// The binary round trip in file form: a file the encoder produced
/// decodes, and re-encoding the decoded value reproduces the file byte
/// for byte.
pub proof fn lemma_encode_decode_exact(l: LevelSetupV)
    requires
        level_valid(l),
        level_encodable(l),
        level_canonical(l),
    ensures
        dec_level(enc_level(l)) is Some,
        enc_level(dec_level(enc_level(l))->0) == enc_level(l),
{
    lemma_level_round_trip(l);
}

/// Classification stability: a value decoded from a binary, once
/// re-encoded, decodes again to the same value.
pub proof fn lemma_decode_encode_stable(b: Seq<u8>, l: LevelSetupV)
    requires
        dec_level(b) == Some(l),
        level_valid(l),
        level_encodable(l),
        level_canonical(l),
    ensures
        dec_level(enc_level(l)) == dec_level(b),
{
    lemma_level_round_trip(l);
}

} // verus!
