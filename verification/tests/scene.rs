use std::io::Write;
use teardown_format::compression::{
    decompress_if_needed, parse_bytes, starts_with_magic, InflateError, SceneError,
};
use teardown_format::entity::{EntityKind, EntityKindVariants};
use teardown_format::entity::Shape;
use teardown_format::export::{
    export_shape, export_shapes, remap_palettes, translate_voxels, ShapeIssue,
};
use teardown_format::transform::Transform;
use teardown_format::material::{MaterialKind, TintKind};
use teardown_format::numeric::Real32;
use teardown_format::parser::{Decode, ParseErrorKind, Parser, PathStep};
use teardown_format::remap::PaletteMapping;
use teardown_format::scene::{parse_uncompressed, Scene};
use teardown_format::script::{parse_lua_value, LuaValue};
use teardown_format::vehicle::{is_plausible_length, Vehicle};
use teardown_format::voxels::Voxels;

const MAGIC: [u8; 5] = [0x54, 0x44, 0x42, 0x49, 0x4e];

fn le(n: u32) -> [u8; 4] {
    n.to_le_bytes()
}

fn string(out: &mut Vec<u8>, s: &str) {
    out.extend(le(s.len() as u32));
    out.extend(s.as_bytes());
}

fn zeros(out: &mut Vec<u8>, n: usize) {
    out.extend(std::iter::repeat(0u8).take(n));
}

/// The bytes of a scene up to its palettes, with nothing in it.
fn scene_head(version: [u8; 3], level: &str) -> Vec<u8> {
    let mut out = Vec::new();
    out.extend(MAGIC);
    out.extend(version);
    string(&mut out, level);
    zeros(&mut out, 4); // z_bytes4_eq_0
    zeros(&mut out, 12); // shadow_volume
    zeros(&mut out, 28); // spawnpoint
    zeros(&mut out, 100); // player
    string(&mut out, "sky.dds"); // skybox: texture
    zeros(&mut out, 16 + 4 + 60 + 1 + 16 + 4 + 4); // the rest of the skybox
    zeros(&mut out, 12); // exposure
    zeros(&mut out, 32); // fog
    zeros(&mut out, 16); // water
    out.push(1); // nightlight
    string(&mut out, ""); // ambience: path
    zeros(&mut out, 4); // ambience: volume
    zeros(&mut out, 4 + 4); // slippery, lights_fog_scale
    zeros(&mut out, 32); // z_f32_8
    out.push(0); // z_u8
    out.extend(le(0)); // boundary_vertices
    out.extend(le(0)); // fires
    out
}

fn material(kind: u8, replacable: bool) -> Vec<u8> {
    let mut out = vec![kind];
    zeros(&mut out, 16 + 16);
    out.push(replacable as u8);
    out
}

/// A palette with dirt at index 4, where glass belongs.
fn palette() -> Vec<u8> {
    let mut out = Vec::new();
    for index in 0..256 {
        out.extend(material(if index == 4 { 8 } else { 0 }, false));
    }
    let mut tints = vec![0u8; 2048];
    tints[1 + 7] = 4;
    tints[1024 + 4 * 2 + 7 + 1] = 9;
    out.extend(tints);
    out.push(0);
    out
}

fn entity(kind: u8, handle: u32, payload: &[u8], children: &[Vec<u8>]) -> Vec<u8> {
    let mut out = vec![kind];
    out.extend(le(handle));
    out.push(1); // tags
    string(&mut out, "name");
    string(&mut out, "value");
    string(&mut out, "a description");
    out.extend(payload);
    out.extend(le(children.len() as u32));
    for child in children {
        out.extend(child);
    }
    out.extend([0xef, 0xbe, 0xef, 0xbe]);
    out
}

fn body() -> Vec<u8> {
    let mut out = vec![3]; // z_u8_start
    zeros(&mut out, 28 + 12 + 12);
    out.extend([1, 0, 0]); // dynamic, active, z_u8
    out
}

fn shape(size: [u32; 3], runs: &[u8], palette: u32) -> Vec<u8> {
    let mut out = vec![0];
    zeros(&mut out, 28 + 4 + 4 + 4 + 4 + 12 + 4 + 4 + 1 + 1);
    for dim in size {
        out.extend(le(dim));
    }
    if size.iter().all(|&dim| dim != 0) {
        out.extend(le(runs.len() as u32));
        out.extend(runs);
    }
    out.extend(le(palette));
    zeros(&mut out, 4 + 8 + 1);
    out
}

fn scene_bytes(version: [u8; 3]) -> Vec<u8> {
    let mut out = scene_head(version, "levels/test.xml");
    out.extend(le(1));
    out.extend(palette());
    out.push(1); // registry
    string(&mut out, "game.levelid");
    string(&mut out, "test");
    out.extend(le(2)); // entities
    let inner = entity(2, 12, &shape([2, 1, 1], &[0, 4, 0, 7], 0), &[]);
    let lost = entity(2, 13, &shape([1, 1, 1], &[0, 4], 5), &[]);
    out.extend(entity(1, 11, &body(), &[inner, lost]));
    out.extend(entity(2, 14, &shape([0, 3, 3], &[], 0), &[]));
    out
}

#[test]
fn scene_is_read() {
    let bytes = scene_bytes([0, 7, 1]);
    let scene = parse_uncompressed(&bytes).unwrap();
    assert!(scene.has_expected_version());
    assert_eq!(scene.version, [0, 7, 1]);
    assert_eq!(scene.level, "levels/test.xml");
    assert_eq!(scene.environment.skybox.texture, "sky.dds");
    assert!(scene.environment.nightlight);
    assert_eq!(scene.palettes.len(), 1);
    assert_eq!(scene.palettes[0].materials[4].kind, MaterialKind::Dirt);
    assert_eq!(scene.palettes[0].materials[5].kind, MaterialKind::Absent);
    assert_eq!(scene.registry.get("game.levelid").map(String::as_str), Some("test"));
    assert_eq!(scene.entities.len(), 2);
    let root = &scene.entities[0];
    assert_eq!(root.handle, 11);
    assert_eq!(root.desc, "a description");
    assert_eq!(root.tags.get("name").map(String::as_str), Some("value"));
    match &root.kind {
        EntityKind::Body(body) => {
            assert!(body.dynamic);
            assert!(!body.active);
            assert_eq!(body.z_u8_start, 3);
        }
        other => panic!("not a body: {:?}", other),
    }
    assert_eq!(root.kind.z_u8_start(), 3);
    assert!(root.transform().is_some());
    assert_eq!(root.children.len(), 2);
    match &root.children[0].kind {
        EntityKind::Shape(shape) => {
            assert_eq!(shape.voxels.size, [2, 1, 1]);
            assert_eq!(shape.voxels.palette_index_runs, vec![0, 4, 0, 7]);
            assert_eq!(shape.palette, 0);
            let mut voxels = shape.iter_voxels();
            assert_eq!(voxels.next(), Some(([0, 0, 0], 4)));
            assert_eq!(voxels.next(), Some(([1, 0, 0], 7)));
            assert_eq!(voxels.next(), None);
        }
        other => panic!("not a shape: {:?}", other),
    }
    match &scene.entities[1].kind {
        EntityKind::Shape(shape) => {
            assert_eq!(shape.voxels.size, [0, 3, 3]);
            assert!(shape.voxels.palette_index_runs.is_empty());
        }
        other => panic!("not a shape: {:?}", other),
    }
}

#[test]
fn bytes_behind_the_scene_are_no_failure() {
    let mut bytes = scene_bytes([0, 7, 1]);
    bytes.extend([1, 2, 3]);
    assert!(parse_uncompressed(&bytes).is_ok());
}

#[test]
fn entities_come_parents_first() {
    let bytes = scene_bytes([0, 7, 1]);
    let scene = parse_uncompressed(&bytes).unwrap();
    let handles: Vec<u32> = scene.iter_entities().iter().map(|entity| entity.handle).collect();
    assert_eq!(handles, vec![11, 12, 13, 14]);
    let below: Vec<u32> =
        scene.entities[0].self_and_all_children().iter().map(|entity| entity.handle).collect();
    assert_eq!(below, vec![11, 12, 13]);
}

#[test]
fn wrong_magic_is_a_failure() {
    let mut bytes = scene_bytes([0, 7, 1]);
    bytes[4] = b'X';
    let error = parse_uncompressed(&bytes).unwrap_err();
    assert_eq!(error.kind, ParseErrorKind::Mismatch);
    assert_eq!(error.offset, 0);
    assert_eq!(error.path, vec![PathStep::Field("magic")]);
    let error = parse_uncompressed(&[0x54, 0x44]).unwrap_err();
    assert_eq!(error.kind, ParseErrorKind::UnexpectedEnd);
    assert_eq!(error.offset, 0);
    assert!(parse_uncompressed(&[]).is_err());
}

#[test]
fn another_version_is_no_failure() {
    let bytes = scene_bytes([0, 9, 3]);
    let scene = parse_uncompressed(&bytes).unwrap();
    assert!(!scene.has_expected_version());
    assert_eq!(scene.version, [0, 9, 3]);
    assert_eq!(scene.entities.len(), 2);
    assert_eq!(scene.level, "levels/test.xml");
}

#[test]
fn unknown_kind_of_entity_is_a_failure() {
    let mut bytes = scene_head([0, 7, 1], "");
    bytes.extend(le(0)); // palettes
    bytes.push(0); // registry
    bytes.extend(le(1));
    let at = bytes.len();
    bytes.extend(entity(6, 1, &body(), &[]));
    let error = parse_uncompressed(&bytes).unwrap_err();
    assert_eq!(error.kind, ParseErrorKind::UnknownEntityKind(6));
    assert_eq!(error.offset, at);
    assert_eq!(
        error.path,
        vec![PathStep::Field("kind"), PathStep::Index(0), PathStep::Field("entities")]
    );
    assert_eq!(EntityKindVariants::from_byte(6), None);
    assert_eq!(EntityKindVariants::from_byte(0), None);
    assert_eq!(EntityKindVariants::from_byte(13), None);
    assert_eq!(EntityKindVariants::from_byte(2), Some(EntityKindVariants::Shape));
    assert_eq!(EntityKindVariants::from_byte(12), Some(EntityKindVariants::Script));
}

#[test]
fn truncated_scene_is_a_failure_with_the_way_to_it() {
    let bytes = scene_bytes([0, 7, 1]);
    for cut in [7, 100, 400, bytes.len() - 1] {
        let error = parse_uncompressed(&bytes[..cut]).unwrap_err();
        assert_eq!(error.kind, ParseErrorKind::UnexpectedEnd);
        assert!(error.offset <= cut);
        assert!(!error.path.is_empty());
    }
    let error = parse_uncompressed(&bytes[..bytes.len() - 1]).unwrap_err();
    assert_eq!(
        error.path,
        vec![PathStep::Field("beef_beef"), PathStep::Index(1), PathStep::Field("entities")]
    );
}

#[test]
fn wrong_end_of_an_entity_is_a_failure() {
    let mut bytes = scene_bytes([0, 7, 1]);
    let last = bytes.len() - 1;
    bytes[last] = 0;
    let error = parse_uncompressed(&bytes).unwrap_err();
    assert_eq!(error.kind, ParseErrorKind::Mismatch);
    assert_eq!(error.offset, last - 3);
}

#[test]
fn tinted_materials() {
    let bytes = scene_bytes([0, 7, 1]);
    let scene = parse_uncompressed(&bytes).unwrap();
    let palette = &scene.palettes[0];
    let tinted = palette.tinted_material(7, TintKind::Black, 0).unwrap();
    assert_eq!(tinted.kind, MaterialKind::Dirt);
    assert!(palette.tinted_material(6, TintKind::Black, 0).is_none());
    assert!(palette.tinted_material(7, TintKind::Yellow, 2).is_some());
    assert!(palette.tinted_material(7, TintKind::Yellow, 1).is_none());
    assert!(palette.tinted_material(255, TintKind::Yellow, 255).is_none());
}

#[test]
fn export_translates_and_splits() {
    let bytes = scene_bytes([0, 7, 1]);
    let scene = parse_uncompressed(&bytes).unwrap();
    let mappings = remap_palettes(&scene.palettes);
    assert_eq!(mappings.len(), 1);
    let table = match &mappings[0] {
        PaletteMapping::Remapped(boxed) => boxed.1,
        PaletteMapping::Original(_) => panic!("dirt at index 4 is out of place"),
    };
    assert_eq!(table[4], 25);
    assert_eq!(table[7], 7);
    let exports = export_shapes(&scene, &mappings);
    assert_eq!(exports.len(), 3);
    assert_eq!(exports[0].handle, 12);
    assert_eq!(exports[0].palette, 0);
    let parts = exports[0].parts.as_ref().unwrap();
    assert_eq!(parts.len(), 1);
    assert_eq!(parts[0].relative_pos, [0, 0, 0]);
    assert_eq!(parts[0].voxels.palette_index_runs, vec![0, 25, 0, 7]);
    assert_eq!(exports[1].handle, 13);
    assert_eq!(exports[1].parts.as_ref().unwrap_err(), &ShapeIssue::MissingPalette);
    assert_eq!(exports[2].handle, 14);
    assert_eq!(exports[2].parts.as_ref().unwrap().len(), 1);
}

#[test]
fn translation_leaves_run_lengths_and_empty_cells() {
    let mut table = [0u8; 256];
    for (i, slot) in table.iter_mut().enumerate() {
        *slot = (255 - i) as u8;
    }
    let voxels = Voxels { size: [9, 9, 9], palette_index_runs: vec![3, 3, 0, 0, 255, 255, 7] };
    let moved = translate_voxels(&voxels, &table);
    assert_eq!(moved.size, [9, 9, 9]);
    assert_eq!(moved.palette_index_runs, vec![3, 252, 0, 0, 255, 0, 7]);
}

#[test]
fn compressed_files_are_inflated() {
    let plain = scene_bytes([0, 7, 1]);
    assert!(starts_with_magic(&plain));
    assert_eq!(decompress_if_needed(plain.clone()), Ok(plain.clone()));
    let mut encoder =
        flate2::write::ZlibEncoder::new(Vec::new(), flate2::Compression::default());
    encoder.write_all(&plain).unwrap();
    let packed = encoder.finish().unwrap();
    assert!(!starts_with_magic(&packed));
    assert_ne!(packed, plain);
    assert_eq!(decompress_if_needed(packed.clone()), Ok(plain.clone()));
    assert_eq!(parse_bytes(packed).unwrap().level, "levels/test.xml");
    assert_eq!(parse_bytes(plain).unwrap().level, "levels/test.xml");
}

#[test]
fn bytes_that_are_neither_are_a_failure() {
    assert!(!starts_with_magic(&[0x54, 0x44, 0x42, 0x49]));
    assert_eq!(decompress_if_needed(vec![1, 2, 3, 4, 5, 6]), Err(InflateError));
    assert!(matches!(parse_bytes(vec![1, 2, 3, 4, 5, 6]), Err(SceneError::Inflate)));
    let mut cut = scene_bytes([0, 7, 1]);
    cut.truncate(50);
    match parse_bytes(cut) {
        Err(SceneError::Parse(error)) => assert_eq!(error.kind, ParseErrorKind::UnexpectedEnd),
        other => panic!("{:?}", other.map(|_| ())),
    }
}

fn vehicle(tail: &[u8]) -> Vec<u8> {
    let mut out = vec![0];
    out.extend(le(77)); // body_handle
    zeros(&mut out, 28 + 12 + 12 + 4);
    out.extend(le(2)); // wheel_handles
    out.extend(le(5));
    out.extend(le(6));
    zeros(&mut out, 8 * 4 + 1 + 4 * 4); // properties up to the sound
    string(&mut out, "engine");
    zeros(&mut out, 4); // pitch
    zeros(&mut out, 12 + 12 + 24 + 4 + 4 + 4 + 1 + 4);
    out.extend(le(0)); // refs
    out.extend(le(0)); // exhausts
    out.extend(le(0)); // vitals
    out.extend(tail);
    out
}

#[test]
fn last_real_of_a_vehicle() {
    assert!(is_plausible_length(1));
    assert!(is_plausible_length(15));
    assert!(!is_plausible_length(0));
    assert!(!is_plausible_length(16));
    let bytes = vehicle(&le(1.5f32.to_bits()));
    let mut parser = Parser::new(&bytes);
    let read = Vehicle::parse(&mut parser).unwrap();
    assert_eq!(read.arm_rot, Some(Real32(1.5f32.to_bits())));
    assert_eq!(read.wheel_handles, vec![5, 6]);
    assert_eq!(read.properties.sound.name, "engine");
    assert_eq!(parser.remaining(), 0);
    let bytes = vehicle(&le(3));
    let mut parser = Parser::new(&bytes);
    assert_eq!(Vehicle::parse(&mut parser).unwrap().arm_rot, None);
    assert_eq!(parser.remaining(), 4);
    let bytes = vehicle(&le(0));
    let mut parser = Parser::new(&bytes);
    assert_eq!(Vehicle::parse(&mut parser).unwrap().arm_rot, Some(Real32(0)));
    let bytes = vehicle(&[1, 2]);
    let mut parser = Parser::new(&bytes);
    let error = Vehicle::parse(&mut parser).unwrap_err();
    assert_eq!(error.kind, ParseErrorKind::UnexpectedEnd);
    assert_eq!(error.path, vec![PathStep::Field("arm_rot")]);
}

#[test]
fn values_of_the_scripting_language() {
    let mut bytes = Vec::new();
    bytes.extend(le(5)); // a table
    bytes.extend(le(4)); // key: a string
    string(&mut bytes, "on");
    bytes.extend(le(1)); // value: a truth value
    bytes.push(1);
    bytes.extend(le(3)); // key: a number
    bytes.extend(2.5f64.to_le_bytes());
    bytes.extend(le(5)); // value: an empty table
    bytes.extend(le(0));
    bytes.extend(le(0));
    let mut parser = Parser::new(&bytes);
    match parse_lua_value(&mut parser).unwrap() {
        LuaValue::Table(table) => {
            assert_eq!(table.0.len(), 2);
            assert!(matches!(&table.0[0].key, LuaValue::String(text) if text == "on"));
            assert!(matches!(table.0[0].value, LuaValue::Boolean(true)));
            match table.0[1].key {
                LuaValue::Number(number) => assert_eq!(f64::from_bits(number.0), 2.5),
                _ => panic!("not a number"),
            }
            assert!(matches!(&table.0[1].value, LuaValue::Table(inner) if inner.0.is_empty()));
        }
        other => panic!("{:?}", other),
    }
    assert_eq!(parser.remaining(), 0);
    for tag in [2u32, 6, 0] {
        let bytes = le(tag);
        let mut parser = Parser::new(&bytes);
        let error = parse_lua_value(&mut parser).unwrap_err();
        assert_eq!(error.kind, ParseErrorKind::NoReprIntMatch(tag as u64));
        assert_eq!(error.offset, 0);
    }
}

#[test]
fn scene_without_entities() {
    let mut bytes = scene_head([0, 7, 1], "");
    bytes.extend(le(0));
    bytes.push(0);
    bytes.extend(le(0));
    let scene: Scene = parse_uncompressed(&bytes).unwrap();
    assert!(scene.entities.is_empty());
    assert!(scene.iter_entities().is_empty());
    assert!(scene.registry.is_empty());
    assert!(export_shapes(&scene, &remap_palettes(&scene.palettes)).is_empty());
}

fn shape_of_size(size: [u32; 3]) -> Shape {
    Shape {
        z_u8_start: 0,
        transform: Transform::default(),
        z_u8_4: [0; 4],
        density: Real32(0),
        strength: Real32(0),
        texture_tile: 0,
        starting_world_position: [Real32(0); 3],
        texture_weight: Real32(0),
        z_f32: Real32(0),
        z1_u8: 0,
        z2_u8: 0,
        voxels: Voxels { size, palette_index_runs: vec![0, 1] },
        palette: 0,
        voxel_scaling: Real32(0),
        z_i32_3: [0; 2],
        z3_u8: 0,
    }
}

#[test]
fn shape_with_too_many_parts_is_left_out() {
    let bytes = scene_bytes([0, 7, 1]);
    let scene = parse_uncompressed(&bytes).unwrap();
    let mappings = remap_palettes(&scene.palettes);
    let huge = shape_of_size([u32::MAX, u32::MAX, u32::MAX]);
    let export = export_shape(5, &huge, &mappings);
    assert_eq!(export.handle, 5);
    assert_eq!(export.parts.unwrap_err(), ShapeIssue::TooLarge);
    let small = shape_of_size([1, 1, 1]);
    let export = export_shape(6, &small, &mappings);
    let parts = export.parts.unwrap();
    assert_eq!(parts.len(), 1);
    assert_eq!(parts[0].voxels.palette_index_runs, vec![0, 1]);
    let export = export_shape(7, &small, &Vec::new());
    assert_eq!(export.parts.unwrap_err(), ShapeIssue::MissingPalette);
}

#[test]
fn kind_of_an_entity_without_what_it_holds() {
    let bytes = scene_bytes([0, 7, 1]);
    let scene = parse_uncompressed(&bytes).unwrap();
    assert_eq!(scene.entities[0].kind.variant(), EntityKindVariants::Body);
    assert_eq!(scene.entities[1].kind.variant(), EntityKindVariants::Shape);
}
