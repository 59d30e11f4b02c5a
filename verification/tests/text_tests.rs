use bk_codec::level::LevelSetup;

fn minimal_level() -> Vec<u8> {
    let mut b: Vec<u8> = vec![0x01, 0x01];
    b.extend_from_slice(&[0x00; 24]);
    b.extend_from_slice(&[0x01, 0x00, 0x03, 0x00, 0x04, 0x00, 0x00]);
    b
}

fn rich_level() -> Vec<u8> {
    // one voxel with an object, an empty slot and a prop; one typed
    // camera node; one lighting node
    let mut b: Vec<u8> = vec![0x01, 0x01];
    b.extend_from_slice(&[0xFF, 0xFF, 0xFF, 0xFE]);
    b.extend_from_slice(&[0x00; 8]);
    b.extend_from_slice(&[0xFF, 0xFF, 0xFF, 0xFE]);
    b.extend_from_slice(&[0x00; 8]);
    b.extend_from_slice(&[0x03, 0x0A, 0x01, 0x0B]);
    b.extend_from_slice(&[0xAA; 20]);
    b.extend_from_slice(&[0x08, 0x01, 0x09]);
    b.extend_from_slice(&[0x5C; 16]);
    b.extend_from_slice(&[0x01, 0x00]);
    b.extend_from_slice(&[
        0x03, 0x01, 0xFF, 0x85, 0x02, 0x03, 0x01, 0x3F, 0x80, 0x00, 0x00, 0x40, 0x00, 0x00, 0x00,
        0x40, 0x40, 0x00, 0x00, 0x05, 0x00, 0x00, 0x00, 0x2A, 0x00, 0x00,
    ]);
    b.extend_from_slice(&[
        0x04, 0x01, 0x02, 0x7F, 0xC0, 0x00, 0x01, 0x40, 0x00, 0x00, 0x00, 0x40, 0x40, 0x00, 0x00,
        0x03, 0x3E, 0x00, 0x00, 0x00, 0x3E, 0x80, 0x00, 0x00, 0x04, 0x00, 0x00, 0x00, 0xFF, 0x00,
        0x00, 0x00, 0x80, 0x00, 0x00, 0x00, 0x40, 0x00,
    ]);
    b.push(0x00);
    b
}

#[test]
fn textual_round_trip_minimal() {
    let b = minimal_level();
    let l = LevelSetup::from_bytes(&b).unwrap();
    let doc = l.to_yaml();
    let l2 = LevelSetup::from_yaml(&doc).unwrap();
    assert_eq!(l2.to_bytes(), b);
}

#[test]
fn textual_round_trip_rich() {
    // exercises negative coordinates, empty object slots, props, a
    // typed camera and a lighting node with a non-finite float pattern
    let b = rich_level();
    let l = LevelSetup::from_bytes(&b).unwrap();
    let doc = l.to_yaml();
    let l2 = LevelSetup::from_yaml(&doc).unwrap();
    assert_eq!(l2.to_bytes(), b);
}

#[test]
fn document_layout() {
    let b = minimal_level();
    let l = LevelSetup::from_bytes(&b).unwrap();
    let doc = String::from_utf8(l.to_yaml()).unwrap();
    let expected = "type: LevelSetup\n\
                    voxels:\n\
                    \x20 startPosition: { x: 0, y: 0, z: 0 }\n\
                    \x20 endPosition: { x: 0, y: 0, z: 0 }\n\
                    \x20 voxels:\n\
                    \x20   - {\n\
                    \x20     objects: [],\n\
                    \x20     props: []\n\
                    \x20   }\n\
                    cameras: []\n\
                    lightings: []\n";
    assert_eq!(doc, expected);
}

#[test]
fn document_objects_layout() {
    let mut b: Vec<u8> = vec![0x01, 0x01];
    b.extend_from_slice(&[0x00; 24]);
    b.extend_from_slice(&[0x03, 0x0A, 0x01, 0x0B]);
    b.extend_from_slice(&[0xAB; 20]);
    b.extend_from_slice(&[0x01, 0x00, 0x03, 0x00, 0x04, 0x00, 0x00]);
    let l = LevelSetup::from_bytes(&b).unwrap();
    let doc = String::from_utf8(l.to_yaml()).unwrap();
    assert!(doc.contains("      objects: [\n        [0xAB, 0xAB"));
    assert!(doc.contains("      props: []\n"));
}

#[test]
fn lighting_document_form() {
    // the float fields travel as their raw big-endian bytes and the
    // color as a hex triple
    let mut b: Vec<u8> = vec![0x01, 0x01];
    b.extend_from_slice(&[0x00; 24]);
    b.extend_from_slice(&[0x01, 0x00, 0x03, 0x00]);
    b.extend_from_slice(&[
        0x04, 0x01, 0x02, 0x3F, 0x80, 0x00, 0x00, 0x40, 0x00, 0x00, 0x00, 0x40, 0x40, 0x00, 0x00,
        0x03, 0x3E, 0x00, 0x00, 0x00, 0x3E, 0x80, 0x00, 0x00, 0x04, 0x00, 0x00, 0x00, 0xFF, 0x00,
        0x00, 0x00, 0x80, 0x00, 0x00, 0x00, 0x40, 0x00,
    ]);
    b.push(0x00);
    let l = LevelSetup::from_bytes(&b).unwrap();
    let doc = String::from_utf8(l.to_yaml()).unwrap();
    assert!(doc.contains("position: { x: [0x3F, 0x80, 0x00, 0x00]"));
    assert!(doc.contains("flags: [[0x3E, 0x00, 0x00, 0x00], [0x3E, 0x80, 0x00, 0x00]]"));
    assert!(doc.contains("rgb: \"FF8040\""));
}

#[test]
fn negative_coordinates_in_document() {
    let b = rich_level();
    let l = LevelSetup::from_bytes(&b).unwrap();
    let doc = String::from_utf8(l.to_yaml()).unwrap();
    assert!(doc.contains("startPosition: { x: -2, y: 0, z: 0 }"));
}

#[test]
fn malformed_document_is_rejected() {
    assert!(LevelSetup::from_yaml(b"type: Sprite\n").is_err());
    assert!(LevelSetup::from_yaml(b"").is_err());
    assert!(LevelSetup::from_yaml(b"type: LevelSetup\nvoxels:\n").is_err());
}

#[test]
fn document_with_trailing_garbage_is_rejected() {
    let b = minimal_level();
    let l = LevelSetup::from_bytes(&b).unwrap();
    let mut doc = l.to_yaml();
    doc.push(b'x');
    assert!(LevelSetup::from_yaml(&doc).is_err());
}

#[test]
fn document_with_wrong_voxel_count_is_rejected() {
    // one lattice cell declared, two voxel entries written
    let b = minimal_level();
    let l = LevelSetup::from_bytes(&b).unwrap();
    let doc = String::from_utf8(l.to_yaml()).unwrap();
    let entry = "    - {\n      objects: [],\n      props: []\n    }\n";
    let bad = doc.replace(entry, &format!("{entry}{entry}"));
    assert!(LevelSetup::from_yaml(bad.as_bytes()).is_err());
}

#[test]
fn document_with_wrong_record_width_is_rejected() {
    // an object record must hold exactly twenty bytes
    let mut b: Vec<u8> = vec![0x01, 0x01];
    b.extend_from_slice(&[0x00; 24]);
    b.extend_from_slice(&[0x03, 0x0A, 0x01, 0x0B]);
    b.extend_from_slice(&[0xAB; 20]);
    b.extend_from_slice(&[0x01, 0x00, 0x03, 0x00, 0x04, 0x00, 0x00]);
    let l = LevelSetup::from_bytes(&b).unwrap();
    let doc = String::from_utf8(l.to_yaml()).unwrap();
    let bad = doc.replace("[0xAB, 0xAB, ", "[");
    assert!(LevelSetup::from_yaml(bad.as_bytes()).is_err());
}

#[test]
fn document_with_illegal_camera_section_is_rejected() {
    // tag 9 is legal under no camera type
    let mut b: Vec<u8> = vec![0x01, 0x01];
    b.extend_from_slice(&[0x00; 24]);
    b.extend_from_slice(&[0x01, 0x00, 0x03]);
    b.extend_from_slice(&[
        0x01, 0x00, 0x05, 0x02, 0x03, 0x05, 0x00, 0x00, 0x00, 0x2A, 0x00, 0x00,
    ]);
    b.extend_from_slice(&[0x04, 0x00, 0x00]);
    let l = LevelSetup::from_bytes(&b).unwrap();
    let doc = String::from_utf8(l.to_yaml()).unwrap();
    let bad = doc.replace("{ section: 5,", "{ section: 9,");
    assert!(LevelSetup::from_yaml(bad.as_bytes()).is_err());
}
