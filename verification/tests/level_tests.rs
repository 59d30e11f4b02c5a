use bk_codec::error::ErrorKind;
use bk_codec::level::LevelSetup;

fn minimal_level() -> Vec<u8> {
    // command 1, start gate, start (0,0,0), end (0,0,0), one empty
    // voxel, the trailing zero gate, empty cameras, empty lightings,
    // end of file
    let mut b: Vec<u8> = vec![0x01, 0x01];
    b.extend_from_slice(&[0x00; 24]);
    b.extend_from_slice(&[0x01, 0x00, 0x03, 0x00, 0x04, 0x00, 0x00]);
    b
}

#[test]
fn minimal_level_decodes() {
    let b = minimal_level();
    let l = LevelSetup::from_bytes(&b).unwrap();
    assert_eq!(l.voxel_list.start_position.x, 0);
    assert_eq!(l.voxel_list.end_position.z, 0);
    assert_eq!(l.voxel_list.voxels.len(), 1);
    assert!(l.voxel_list.voxels[0].objects.is_empty());
    assert!(l.voxel_list.voxels[0].props.is_empty());
    assert!(l.camera_nodes.nodes.is_empty());
    assert!(l.lighting_nodes.nodes.is_empty());
}

#[test]
fn minimal_level_round_trips() {
    let b = minimal_level();
    let l = LevelSetup::from_bytes(&b).unwrap();
    assert_eq!(l.to_bytes(), b);
}

#[test]
fn voxel_with_one_object() {
    // the same lattice, but the voxel carries one 20-byte object
    let mut b: Vec<u8> = vec![0x01, 0x01];
    b.extend_from_slice(&[0x00; 24]);
    b.extend_from_slice(&[0x03, 0x0A, 0x01, 0x0B]);
    b.extend_from_slice(&[0xAA; 20]);
    b.extend_from_slice(&[0x01, 0x00, 0x03, 0x00, 0x04, 0x00, 0x00]);
    let l = LevelSetup::from_bytes(&b).unwrap();
    let v = &l.voxel_list.voxels[0];
    assert_eq!(v.objects.len(), 1);
    assert_eq!(v.objects[0].as_ref().unwrap(), &vec![0xAA; 20]);
    assert!(v.props.is_empty());
    assert_eq!(l.to_bytes(), b);
}

#[test]
fn voxel_with_none_slot() {
    // a kind-0xA group with a zero count declares an empty slot
    let mut b: Vec<u8> = vec![0x01, 0x01];
    b.extend_from_slice(&[0x00; 24]);
    b.extend_from_slice(&[0x03, 0x0A, 0x00]);
    b.extend_from_slice(&[0x01, 0x00, 0x03, 0x00, 0x04, 0x00, 0x00]);
    let l = LevelSetup::from_bytes(&b).unwrap();
    let v = &l.voxel_list.voxels[0];
    assert_eq!(v.objects.len(), 1);
    assert!(v.objects[0].is_none());
    assert_eq!(l.to_bytes(), b);
}

#[test]
fn voxel_with_props() {
    let mut b: Vec<u8> = vec![0x01, 0x01];
    b.extend_from_slice(&[0x00; 24]);
    b.extend_from_slice(&[0x08, 0x02, 0x09]);
    b.extend_from_slice(&[0x11; 16]);
    b.extend_from_slice(&[0x22; 16]);
    b.extend_from_slice(&[0x01, 0x00, 0x03, 0x00, 0x04, 0x00, 0x00]);
    let l = LevelSetup::from_bytes(&b).unwrap();
    let v = &l.voxel_list.voxels[0];
    assert!(v.objects.is_empty());
    assert_eq!(v.props.len(), 2);
    assert_eq!(v.props[0], vec![0x11; 16]);
    assert_eq!(v.props[1], vec![0x22; 16]);
    assert_eq!(l.to_bytes(), b);
}

#[test]
fn camera_node_type_three() {
    // one camera node: index 5, type 3, a three-float section and a
    // one-word section
    let mut b: Vec<u8> = vec![0x01, 0x01];
    b.extend_from_slice(&[0x00; 24]);
    b.extend_from_slice(&[0x01, 0x00, 0x03]);
    b.extend_from_slice(&[
        0x01, 0x00, 0x05, 0x02, 0x03, 0x01, 0x3F, 0x80, 0x00, 0x00, 0x40, 0x00, 0x00, 0x00, 0x40,
        0x40, 0x00, 0x00, 0x05, 0x00, 0x00, 0x00, 0x2A, 0x00, 0x00,
    ]);
    b.extend_from_slice(&[0x04, 0x00, 0x00]);
    let l = LevelSetup::from_bytes(&b).unwrap();
    assert_eq!(l.camera_nodes.nodes.len(), 1);
    let n = &l.camera_nodes.nodes[0];
    assert_eq!(n.index, 5);
    assert_eq!(n.camera_type, 3);
    assert_eq!(n.sections.len(), 2);
    assert_eq!(n.sections[0].tag, 1);
    assert_eq!(
        n.sections[0].bytes,
        vec![0x3F, 0x80, 0x00, 0x00, 0x40, 0x00, 0x00, 0x00, 0x40, 0x40, 0x00, 0x00]
    );
    assert_eq!(n.sections[1].tag, 5);
    assert_eq!(n.sections[1].bytes, vec![0x00, 0x00, 0x00, 0x2A]);
    assert_eq!(l.to_bytes(), b);
}

#[test]
fn lighting_node_values() {
    // one lighting node: position (1.0, 2.0, 3.0), flags (0.125, 0.25),
    // color FF 80 40
    let mut b: Vec<u8> = vec![0x01, 0x01];
    b.extend_from_slice(&[0x00; 24]);
    b.extend_from_slice(&[0x01, 0x00, 0x03, 0x00]);
    b.extend_from_slice(&[
        0x04, 0x01, 0x02, 0x3F, 0x80, 0x00, 0x00, 0x40, 0x00, 0x00, 0x00, 0x40, 0x40, 0x00, 0x00,
        0x03, 0x3E, 0x00, 0x00, 0x00, 0x3E, 0x80, 0x00, 0x00, 0x04, 0x00, 0x00, 0x00, 0xFF, 0x00,
        0x00, 0x00, 0x80, 0x00, 0x00, 0x00, 0x40, 0x00,
    ]);
    b.push(0x00);
    let l = LevelSetup::from_bytes(&b).unwrap();
    assert_eq!(l.lighting_nodes.nodes.len(), 1);
    let n = &l.lighting_nodes.nodes[0];
    assert_eq!(n.position.x, 0x3F800000);
    assert_eq!(n.position.y, 0x40000000);
    assert_eq!(n.position.z, 0x40400000);
    assert_eq!(n.flags.x, 0x3E000000);
    assert_eq!(n.flags.y, 0x3E800000);
    assert_eq!(n.rgb.r, 0xFF);
    assert_eq!(n.rgb.g, 0x80);
    assert_eq!(n.rgb.b, 0x40);
    assert_eq!(l.to_bytes(), b);
}

#[test]
fn voxel_count_matches_lattice_volume() {
    // a 2 by 1 by 3 lattice holds six voxels
    let mut b: Vec<u8> = vec![0x01, 0x01];
    b.extend_from_slice(&[0x00; 12]);
    b.extend_from_slice(&[0x00, 0x00, 0x00, 0x01]);
    b.extend_from_slice(&[0x00, 0x00, 0x00, 0x00]);
    b.extend_from_slice(&[0x00, 0x00, 0x00, 0x02]);
    b.extend_from_slice(&[0x01; 6]);
    b.extend_from_slice(&[0x00, 0x03, 0x00, 0x04, 0x00, 0x00]);
    let l = LevelSetup::from_bytes(&b).unwrap();
    assert_eq!(l.voxel_list.voxels.len(), 6);
    assert_eq!(l.to_bytes(), b);
}

#[test]
fn decode_encode_decode_is_stable() {
    let b = minimal_level();
    let l1 = LevelSetup::from_bytes(&b).unwrap();
    let b2 = l1.to_bytes();
    let l2 = LevelSetup::from_bytes(&b2).unwrap();
    assert_eq!(l2.to_bytes(), b2);
    assert_eq!(l1.voxel_list.voxels.len(), l2.voxel_list.voxels.len());
    assert_eq!(l1.camera_nodes.nodes.len(), l2.camera_nodes.nodes.len());
    assert_eq!(l1.lighting_nodes.nodes.len(), l2.lighting_nodes.nodes.len());
}

#[test]
fn wrong_leading_command_is_rejected() {
    let b = vec![0x02, 0x00, 0x00];
    let e = LevelSetup::from_bytes(&b).unwrap_err();
    assert_eq!(e.kind, ErrorKind::UnexpectedByte);
}

#[test]
fn truncated_input_is_rejected() {
    let b = vec![0x01, 0x01, 0x00, 0x00];
    let e = LevelSetup::from_bytes(&b).unwrap_err();
    assert_eq!(e.kind, ErrorKind::Truncated);
}

#[test]
fn inverted_lattice_is_rejected() {
    // start beyond end in one dimension
    let mut b: Vec<u8> = vec![0x01, 0x01];
    b.extend_from_slice(&[0x00, 0x00, 0x00, 0x05]);
    b.extend_from_slice(&[0x00; 8]);
    b.extend_from_slice(&[0x00; 12]);
    b.extend_from_slice(&[0x01, 0x00, 0x03, 0x00, 0x04, 0x00, 0x00]);
    let e = LevelSetup::from_bytes(&b).unwrap_err();
    assert_eq!(e.kind, ErrorKind::InvariantViolation);
}

#[test]
fn trailing_bytes_are_rejected() {
    let mut b = minimal_level();
    b.push(0x00);
    assert!(LevelSetup::from_bytes(&b).is_err());
}

#[test]
fn illegal_voxel_tag_is_rejected() {
    let mut b: Vec<u8> = vec![0x01, 0x01];
    b.extend_from_slice(&[0x00; 24]);
    b.push(0x07);
    b.extend_from_slice(&[0x01, 0x00, 0x03, 0x00, 0x04, 0x00, 0x00]);
    let e = LevelSetup::from_bytes(&b).unwrap_err();
    assert_eq!(e.kind, ErrorKind::UnexpectedByte);
}

#[test]
fn missing_lighting_gate_is_rejected() {
    // the position gate of a lighting node is mandatory
    let mut b: Vec<u8> = vec![0x01, 0x01];
    b.extend_from_slice(&[0x00; 24]);
    b.extend_from_slice(&[0x01, 0x00, 0x03, 0x00, 0x04, 0x01, 0x05]);
    assert!(LevelSetup::from_bytes(&b).is_err());
}

#[test]
fn oversized_voxel_count_is_a_count_overflow() {
    // 256 present objects in one voxel decode fine but cannot re-emit:
    // the on-disk count byte holds at most 255
    let mut b: Vec<u8> = vec![0x01, 0x01];
    b.extend_from_slice(&[0x00; 24]);
    for _ in 0..256 {
        b.extend_from_slice(&[0x03, 0x0A, 0x01, 0x0B]);
        b.extend_from_slice(&[0x77; 20]);
    }
    b.extend_from_slice(&[0x01, 0x00, 0x03, 0x00, 0x04, 0x00, 0x00]);
    let l = bk_codec::level::LevelSetup::from_bytes(&b).unwrap();
    let e = l.to_bytes_checked().unwrap_err();
    assert_eq!(e.kind, ErrorKind::CountOverflow);
}

#[test]
fn checked_encode_round_trips() {
    let b = minimal_level();
    let l = LevelSetup::from_bytes(&b).unwrap();
    assert_eq!(l.to_bytes_checked().unwrap(), b);
}

#[test]
fn rejected_byte_is_reported_at_its_offset() {
    // an illegal voxel tag: the error carries the byte and where it was
    let mut b: Vec<u8> = vec![0x01, 0x01];
    b.extend_from_slice(&[0x00; 24]);
    b.push(0x07);
    b.extend_from_slice(&[0x01, 0x00, 0x03, 0x00, 0x04, 0x00, 0x00]);
    let e = LevelSetup::from_bytes(&b).unwrap_err();
    assert_eq!(e.kind, ErrorKind::UnexpectedByte);
    assert_eq!(e.offset, 26);
    assert_eq!(e.found, 0x07);
}
