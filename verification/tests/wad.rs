use std::path::PathBuf;

use digital_garden::apps::wad_viewer::{ViewerState, WadViewer};
use digital_garden::wad::{
    is_map_header, parse_linedefs, parse_things, parse_vertexes, Bbox, Linedef, ThingCategory,
    Vertex, Wad, WadError, WadKind,
};

/// A minimal WAD with two empty lumps.
fn synthetic_wad() -> Vec<u8> {
    let mut buf = Vec::new();
    buf.extend_from_slice(b"IWAD");
    buf.extend_from_slice(&2u32.to_le_bytes());
    buf.extend_from_slice(&12u32.to_le_bytes());
    buf.extend_from_slice(&0u32.to_le_bytes());
    buf.extend_from_slice(&0u32.to_le_bytes());
    buf.extend_from_slice(b"PLAYPAL\0");
    buf.extend_from_slice(&0u32.to_le_bytes());
    buf.extend_from_slice(&0u32.to_le_bytes());
    buf.extend_from_slice(b"E1M1\0\0\0\0");
    buf
}

/// A WAD holding one map, E1M1, with two vertexes, one linedef and one thing.
fn map_wad() -> Vec<u8> {
    let mut vertexes = Vec::new();
    for v in [(-10i16, 20i16), (30, -40)] {
        vertexes.extend_from_slice(&v.0.to_le_bytes());
        vertexes.extend_from_slice(&v.1.to_le_bytes());
    }
    let mut linedefs = Vec::new();
    for f in [0u16, 1, 4, 0, 0, 0, 0xFFFF] {
        linedefs.extend_from_slice(&f.to_le_bytes());
    }
    let mut things = Vec::new();
    things.extend_from_slice(&5i16.to_le_bytes());
    things.extend_from_slice(&(-6i16).to_le_bytes());
    for f in [90u16, 3001, 7] {
        things.extend_from_slice(&f.to_le_bytes());
    }
    let lumps: Vec<(&[u8; 8], Vec<u8>)> = vec![
        (b"E1M1\0\0\0\0", Vec::new()),
        (b"THINGS\0\0", things),
        (b"LINEDEFS", linedefs),
        (b"VERTEXES", vertexes),
    ];
    let mut data = Vec::new();
    let mut dir = Vec::new();
    let mut offset = 12u32;
    for (name, body) in &lumps {
        dir.extend_from_slice(&offset.to_le_bytes());
        dir.extend_from_slice(&(body.len() as u32).to_le_bytes());
        dir.extend_from_slice(&name[..]);
        data.extend_from_slice(body);
        offset += body.len() as u32;
    }
    let mut buf = Vec::new();
    buf.extend_from_slice(b"PWAD");
    buf.extend_from_slice(&(lumps.len() as u32).to_le_bytes());
    buf.extend_from_slice(&offset.to_le_bytes());
    buf.extend_from_slice(&data);
    buf.extend_from_slice(&dir);
    buf
}

#[test]
fn parse_synthetic_header() {
    let wad = Wad::from_bytes(synthetic_wad()).unwrap();
    assert_eq!(wad.kind, WadKind::Iwad);
    assert_eq!(wad.lumps.len(), 2);
    assert_eq!(wad.lumps[0].name, "PLAYPAL");
    assert_eq!(wad.lumps[1].name, "E1M1");
}

#[test]
fn map_names_filters_correctly() {
    let wad = Wad::from_bytes(synthetic_wad()).unwrap();
    let names = wad.map_names();
    assert_eq!(names, vec!["E1M1".to_string()]);
}

#[test]
fn rejects_bad_magic() {
    let mut bytes = synthetic_wad();
    bytes[0] = b'X';
    assert!(matches!(Wad::from_bytes(bytes), Err(WadError::Format(_))));
}

#[test]
fn rejects_short_file() {
    assert!(matches!(
        Wad::from_bytes(vec![1, 2, 3]),
        Err(WadError::Format(_))
    ));
}

#[test]
fn is_map_header_recognizes_doom1_and_doom2_styles() {
    assert!(is_map_header("E1M1"));
    assert!(is_map_header("E3M9"));
    assert!(is_map_header("MAP01"));
    assert!(is_map_header("MAP32"));
    assert!(!is_map_header("E1"));
    assert!(!is_map_header("MAP1"));
    assert!(!is_map_header("PLAYPAL"));
    assert!(!is_map_header("THINGS"));
}

#[test]
fn linedef_two_sided_via_left_sidedef() {
    let solid = Linedef {
        v1: 0,
        v2: 1,
        flags: 0,
        special: 0,
        tag: 0,
        right_sidedef: 0,
        left_sidedef: 0xFFFF,
    };
    assert!(!solid.two_sided());
    let portal = Linedef {
        left_sidedef: 1,
        ..solid
    };
    assert!(portal.two_sided());
}

#[test]
fn thing_classify_buckets() {
    assert_eq!(ThingCategory::classify(1), ThingCategory::PlayerStart);
    assert_eq!(ThingCategory::classify(3001), ThingCategory::Monster);
    assert_eq!(ThingCategory::classify(2001), ThingCategory::Weapon);
    assert_eq!(ThingCategory::classify(2011), ThingCategory::HealthArmor);
    assert_eq!(ThingCategory::classify(50000), ThingCategory::Other);
}

#[test]
fn parse_vertexes_round_trip() {
    let mut bytes = Vec::new();
    bytes.extend_from_slice(&(-128i16).to_le_bytes());
    bytes.extend_from_slice(&512i16.to_le_bytes());
    bytes.extend_from_slice(&0i16.to_le_bytes());
    bytes.extend_from_slice(&(-32768i16).to_le_bytes());
    let vs = parse_vertexes(&bytes).unwrap();
    assert_eq!(vs.len(), 2);
    assert_eq!(vs[0].x, -128);
    assert_eq!(vs[0].y, 512);
    assert_eq!(vs[1].x, 0);
    assert_eq!(vs[1].y, -32768);
}

#[test]
fn pwad_kind_and_truncated_directory() {
    let wad = Wad::from_bytes(map_wad()).unwrap();
    assert_eq!(wad.kind, WadKind::Pwad);
    assert_eq!(wad.lumps.len(), 4);
    let mut bytes = map_wad();
    bytes.truncate(bytes.len() - 1);
    assert!(matches!(Wad::from_bytes(bytes), Err(WadError::Format(_))));
}

#[test]
fn load_map_reads_all_lumps() {
    let wad = Wad::from_bytes(map_wad()).unwrap();
    let map = wad.load_map("E1M1").unwrap();
    assert_eq!(map.name, "E1M1");
    assert_eq!(map.vertexes.len(), 2);
    assert_eq!((map.vertexes[1].x, map.vertexes[1].y), (30, -40));
    assert_eq!(map.linedefs.len(), 1);
    assert_eq!(map.linedefs[0].v2, 1);
    assert!(map.linedefs[0].two_sided());
    assert_eq!(map.things.len(), 1);
    assert_eq!(map.things[0].doom_type, 3001);
    assert_eq!(map.things[0].y, -6);
    assert_eq!(
        (map.bbox.min_x, map.bbox.max_x, map.bbox.min_y, map.bbox.max_y),
        (-10, 30, -40, 20)
    );
    assert!(matches!(wad.load_map("E1M2"), Err(WadError::Format(_))));
}

#[test]
fn lump_lookup_and_bounds() {
    let wad = Wad::from_bytes(map_wad()).unwrap();
    assert_eq!(wad.find_lump("LINEDEFS"), Some(2));
    assert_eq!(wad.find_lump_after(3, "LINEDEFS"), None);
    assert_eq!(wad.lump_bytes(2).unwrap().len(), 14);
    assert!(wad.lump_bytes(0).unwrap().is_empty());
    assert!(matches!(wad.lump_bytes(9), Err(WadError::Format(_))));
    // A lump that points past the end of the file is refused on access.
    let mut bytes = synthetic_wad();
    bytes[12..16].copy_from_slice(&1000u32.to_le_bytes());
    bytes[16..20].copy_from_slice(&4u32.to_le_bytes());
    let wad = Wad::from_bytes(bytes).unwrap();
    assert!(matches!(wad.lump_bytes(0), Err(WadError::Format(_))));
}

#[test]
fn parsers_reject_ragged_lumps() {
    assert!(matches!(parse_vertexes(&[0, 1, 2]), Err(WadError::Format(_))));
    assert!(matches!(parse_linedefs(&[0; 13]), Err(WadError::Format(_))));
    assert!(matches!(parse_things(&[0; 11]), Err(WadError::Format(_))));
    assert_eq!(parse_things(&[]).unwrap().len(), 0);
}

#[test]
fn bbox_of_nothing_is_zero_and_lump_names_decode() {
    let b = Bbox::from_vertexes(&[]);
    assert_eq!((b.min_x, b.max_x, b.min_y, b.max_y), (0, 0, 0, 0));
    let one = Bbox::from_vertexes(&[Vertex { x: 7, y: -3 }]);
    assert_eq!((one.min_x, one.max_x, one.min_y, one.max_y), (7, 7, -3, -3));
    assert_eq!(ThingCategory::classify(2048), ThingCategory::Ammo);
    assert_eq!(ThingCategory::classify(39), ThingCategory::Key);
    assert_eq!(ThingCategory::classify(80), ThingCategory::Decoration);
}

fn error_of(v: &WadViewer) -> String {
    match &v.state {
        ViewerState::Empty { error: Some(e) } => e.clone(),
        _ => panic!("expected an error"),
    }
}

#[test]
fn viewer_loads_the_first_map() {
    let mut v = WadViewer::default();
    let wad = Wad::from_bytes(map_wad()).unwrap();
    assert!(v.load(PathBuf::from("/w/doom.wad"), Ok(wad)));
    match &v.state {
        ViewerState::Loaded { map_names, selected, map, .. } => {
            assert_eq!(map_names, &vec!["E1M1".to_string()]);
            assert_eq!(selected, "E1M1");
            assert_eq!(map.vertexes.len(), 2);
        }
        ViewerState::Empty { .. } => panic!("expected a map"),
    }
    assert_eq!(v.loaded_path(), Some(&PathBuf::from("/w/doom.wad")));
    // The map already shown, or one that is not there: nothing changes.
    assert!(!v.switch_map("E1M1"));
    assert!(!v.switch_map("E9M9"));
    assert!(v.show_things && !v.show_decorations);
}

#[test]
fn viewer_reports_load_failures() {
    let mut v = WadViewer::default();
    assert!(v.loaded_path().is_none());
    let io = std::io::Error::new(std::io::ErrorKind::NotFound, "gone");
    assert!(!v.load(PathBuf::from("x.wad"), Err(WadError::Io(io))));
    assert_eq!(error_of(&v), "failed to load x.wad: I/O error: gone");
    // A map header without its lumps cannot be read.
    let wad = Wad::from_bytes(synthetic_wad()).unwrap();
    assert!(!v.load(PathBuf::from("x.wad"), Ok(wad)));
    assert!(error_of(&v).starts_with("failed to read E1M1: WAD format error: "));
    // No map headers at all.
    let mut buf = Vec::new();
    buf.extend_from_slice(b"IWAD");
    buf.extend_from_slice(&1u32.to_le_bytes());
    buf.extend_from_slice(&12u32.to_le_bytes());
    buf.extend_from_slice(&0u32.to_le_bytes());
    buf.extend_from_slice(&0u32.to_le_bytes());
    buf.extend_from_slice(b"PLAYPAL\0");
    let wad = Wad::from_bytes(buf).unwrap();
    assert!(!v.load(PathBuf::from("x.wad"), Ok(wad)));
    assert_eq!(error_of(&v), "x.wad contains no maps (E#M# / MAP## lumps)");
    assert_eq!(WadError::Format("bad".into()).message(), "WAD format error: bad");
}

fn format_text(e: WadError) -> String {
    match e {
        WadError::Format(s) => s,
        WadError::Io(e) => panic!("unexpected I/O error: {e}"),
    }
}

#[test]
fn format_errors_carry_their_details() {
    let mut bytes = synthetic_wad();
    bytes[0] = b'X';
    assert_eq!(format_text(Wad::from_bytes(bytes).err().unwrap()), "bad magic: \"XWAD\"");
    let mut bytes = synthetic_wad();
    bytes.truncate(40);
    assert_eq!(
        format_text(Wad::from_bytes(bytes).err().unwrap()),
        "directory extends past EOF (need 44, have 40)"
    );
    let wad = Wad::from_bytes(synthetic_wad()).unwrap();
    assert_eq!(format_text(wad.lump_bytes(9).err().unwrap()), "lump index 9 out of range");
    assert_eq!(
        format_text(parse_vertexes(&[0, 1, 2]).err().unwrap()),
        "VERTEXES not multiple of 4: 3 bytes"
    );
    let mut bytes = synthetic_wad();
    bytes[12..16].copy_from_slice(&1000u32.to_le_bytes());
    bytes[16..20].copy_from_slice(&4u32.to_le_bytes());
    let wad = Wad::from_bytes(bytes).unwrap();
    assert_eq!(format_text(wad.lump_bytes(0).err().unwrap()), "lump PLAYPAL (1000+4) past EOF (44)");
}
