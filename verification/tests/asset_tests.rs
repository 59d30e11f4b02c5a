use bk_codec::assets::{
    from_seg_indx_and_bytes, Animation, Asset, AssetType, Binary, DemoButtonFile, Dialog,
    GruntyQuestion, LevelCubeBytes, Model, ParsedAsset, QuizQuestion,
};
use bk_codec::pixels::ImgFmt;
use bk_codec::reader::LevelSetupReader;
use bk_codec::error::Phase;

#[test]
fn opaque_assets_keep_their_bytes() {
    let b = vec![1, 2, 3, 4, 5];
    assert_eq!(Binary::from_bytes(&b).to_bytes(), b);
    assert_eq!(Animation::from_bytes(&b).to_bytes(), b);
    assert_eq!(Model::from_bytes(&b).to_bytes(), b);
    assert_eq!(Binary::from_bytes(&b).get_type(), AssetType::Binary);
}

#[test]
fn dialog_round_trips() {
    let b = vec![
        0x01, 0x03, 0x00, // signature
        0x01, // one bottom string
        0x80, 0x02, b'H', b'I', // cmd, length, text
        0x01, // one top string
        0x81, 0x03, b'Y', b'O', b'U',
    ];
    let d = Dialog::from_bytes(&b).unwrap();
    assert_eq!(d.bottom.len(), 1);
    assert_eq!(d.bottom[0].cmd, 0x80);
    assert_eq!(d.bottom[0].string, b"HI".to_vec());
    assert_eq!(d.top[0].string, b"YOU".to_vec());
    assert_eq!(d.to_bytes(), b);
}

#[test]
fn dialog_truncated_is_rejected() {
    assert!(Dialog::from_bytes(&[0x01, 0x03, 0x00, 0x02, 0x80]).is_err());
}

#[test]
fn quiz_question_splits_options() {
    let mut b = vec![0x01, 0x01, 0x02, 0x05, 0x00, 0x04];
    for k in 0..4u8 {
        b.push(k);
        b.push(0x01);
        b.push(b'A' + k);
    }
    let q = QuizQuestion::from_bytes(&b).unwrap();
    assert_eq!(q.question.len(), 1);
    assert_eq!(q.question[0].string, b"A".to_vec());
    assert_eq!(q.options.len(), 3);
    assert_eq!(q.options[0].string, b"B".to_vec());
    assert_eq!(q.options[2].string, b"D".to_vec());
    assert_eq!(q.to_bytes(), b);
}

#[test]
fn grunty_question_round_trips() {
    let mut b = vec![0x01, 0x03, 0x00, 0x05, 0x00, 0x03];
    for k in 0..3u8 {
        b.push(k);
        b.push(0x01);
        b.push(b'X' + k);
    }
    let g = GruntyQuestion::from_bytes(&b).unwrap();
    assert!(g.question.is_empty());
    assert_eq!(g.options.len(), 3);
    assert_eq!(g.to_bytes(), b);
}

#[test]
fn demo_file_round_trips() {
    let mut b: Vec<u8> = Vec::new();
    b.extend_from_slice(&12u32.to_be_bytes());
    b.extend_from_slice(&[0x10, 0x20, 0x00, 0x30, 0x02, 0x7F]); // first record, flag 0x7F
    b.extend_from_slice(&[0x01, 0x02, 0x00, 0x03, 0x04, 0x00]);
    let d = DemoButtonFile::from_bytes(&b).unwrap();
    assert_eq!(d.frame1_flag, 0x7F);
    assert_eq!(d.inputs.len(), 2);
    assert_eq!(d.inputs[0].x, 0x10);
    assert_eq!(d.inputs[1].buttons, 3);
    assert_eq!(d.to_bytes(), b);
}

#[test]
fn empty_demo_file() {
    let d = DemoButtonFile::from_bytes(&[]).unwrap();
    assert!(d.inputs.is_empty());
    assert!(d.to_bytes().is_empty());
}

#[test]
fn demo_length_mismatch_is_rejected() {
    let mut b: Vec<u8> = Vec::new();
    b.extend_from_slice(&18u32.to_be_bytes());
    b.extend_from_slice(&[0u8; 12]);
    assert!(DemoButtonFile::from_bytes(&b).is_err());
}

#[test]
fn cube_record_unpacks_fields() {
    // a 20-byte object record: position, packed radius and category,
    // actor id, packed yaw and scale
    let mut b = vec![0u8; 20];
    b[0] = 0xFF;
    b[1] = 0xFE; // x = -2
    b[2] = 0x00;
    b[3] = 0x05; // y = 5
    b[6] = 0x86;
    b[7] = 0x03; // radius 0x203, category bits
    b[8] = 0x12;
    b[9] = 0x34;
    b[10] = 0x99;
    b[12] = 0x00;
    b[13] = 0x00;
    b[14] = 0x06;
    b[15] = 0x01; // yaw 0x201, scale 3
    b[19] = 0x2A;
    match LevelCubeBytes::new(&b) {
        LevelCubeBytes::NodePropBytes(p) => {
            assert_eq!(p.x, -2);
            assert_eq!(p.y, 5);
            assert_eq!(p.radius, 0x0603 & 0x1FF);
            assert_eq!(p.bit6, (0x8603 >> 9) & 0x3F);
            assert_eq!(p.bit0, 0x8603 >> 15);
            assert_eq!(p.actor_id, 0x1234);
            assert_eq!(p.unk_a, 0x99);
            assert_eq!(p.yaw, 0x601 & 0x1FF);
            assert_eq!(p.scale, 0x601 >> 9);
            assert_eq!(p.unk_10, 0x2A);
        },
        _ => panic!("expected an object record"),
    }
}

#[test]
fn cube_record_prop_form() {
    let mut b = vec![0u8; 12];
    b[3] = 1;
    b[7] = 2;
    b[11] = 3;
    match LevelCubeBytes::new(&b) {
        LevelCubeBytes::OtherNodeBytes(o) => {
            assert_eq!(o.unk_4, 1);
            assert_eq!(o.unk_c, 2);
            assert_eq!(o.unk_10, 3);
        },
        _ => panic!("expected a prop record"),
    }
}

#[test]
fn dispatcher_picks_codecs() {
    let anim = from_seg_indx_and_bytes(0, 0, &[1, 2, 3]).unwrap();
    assert_eq!(anim.get_type(), AssetType::Animation);

    let model = from_seg_indx_and_bytes(1, 0, &[0x00, 0x00, 0x00, 0x0B, 0x01]).unwrap();
    assert_eq!(model.get_type(), AssetType::Model);

    let midi = from_seg_indx_and_bytes(6, 0, &[9, 9]).unwrap();
    assert_eq!(midi.get_type(), AssetType::Midi);

    let bin = from_seg_indx_and_bytes(9, 0, &[5]).unwrap();
    assert_eq!(bin.get_type(), AssetType::Binary);
}

#[test]
fn dispatcher_decodes_levels() {
    let mut b: Vec<u8> = vec![0x01, 0x01];
    b.extend_from_slice(&[0x00; 24]);
    b.extend_from_slice(&[0x01, 0x00, 0x03, 0x00, 0x04, 0x00, 0x00]);
    let a = from_seg_indx_and_bytes(2, 1821, &b).unwrap();
    assert_eq!(a.get_type(), AssetType::LevelSetup);
    match a {
        ParsedAsset::LevelSetup(l) => assert_eq!(l.voxel_list.voxels.len(), 1),
        _ => panic!("expected a decoded level"),
    }
}

#[test]
fn known_bad_map_stays_opaque() {
    // the one known-unparseable map comes back opaque with its
    // discriminator unchanged
    let junk = vec![0xDE, 0xAD];
    let a = from_seg_indx_and_bytes(2, 1820 + 113, &junk).unwrap();
    assert_eq!(a.get_type(), AssetType::LevelSetup);
    match a {
        ParsedAsset::LevelSetupOpaque(bytes) => assert_eq!(bytes, junk),
        _ => panic!("expected the opaque form"),
    }
}

#[test]
fn dispatcher_picks_sprites() {
    let mut b: Vec<u8> = Vec::new();
    b.extend_from_slice(&1u16.to_be_bytes());
    b.extend_from_slice(&0x0123u16.to_be_bytes());
    let a = from_seg_indx_and_bytes(3, 0, &b).unwrap();
    assert_eq!(a.get_type(), AssetType::Sprite(ImgFmt::Unknown(0x0123)));
}

#[test]
fn dispatcher_picks_text_records() {
    let dialog = vec![0x01, 0x03, 0x00, 0x00, 0x00];
    let a = from_seg_indx_and_bytes(4, 0, &dialog).unwrap();
    assert_eq!(a.get_type(), AssetType::Dialog);
}

#[test]
fn reader_scalar_reads() {
    let b = [0x12, 0x34, 0x56, 0x78, 0xFF, 0xFE];
    let mut r = LevelSetupReader::new(&b);
    assert_eq!(r.read_u16(Phase::Voxels).unwrap(), 0x1234);
    assert_eq!(r.read_u8(Phase::Voxels).unwrap(), 0x56);
    assert_eq!(r.read_i8(Phase::Voxels).unwrap(), 0x78);
    assert_eq!(r.read_i16(Phase::Voxels).unwrap(), -2);
    assert!(r.read_u32(Phase::Voxels).is_err());
}

#[test]
fn reader_gate_combinator() {
    let b = [0x07, 0x08];
    let mut r = LevelSetupReader::new(&b);
    assert!(!r.read_if_expected(0x08));
    assert!(r.read_if_expected(0x07));
    assert!(r.read_if_expected(0x08));
    assert!(!r.read_if_expected(0x08));
}

#[test]
fn reader_word_and_bulk_reads() {
    let b = [0x00, 0x00, 0x00, 0x2A, 0xAA, 0xBB];
    let mut r = LevelSetupReader::new(&b);
    assert_eq!(r.read_word(Phase::Voxels).unwrap(), 42);
    assert_eq!(r.read_u8_n(2, Phase::Voxels).unwrap(), vec![0xAA, 0xBB]);
    assert_eq!(r.offset(), 6);
    assert_eq!(r.remaining(), 0);
}
