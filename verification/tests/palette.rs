use teardown_format::material::{
    material_kind_for_index, range_for_material_kind, Material, MaterialKind,
};
use teardown_format::remap::{
    failed_mappings, is_in_order, remap_materials, remap_with_report, tier_of, PaletteMapping,
};

fn blank_palette() -> [Material; 256] {
    [Material::default(); 256]
}

#[test]
fn preserve_original() {
    let mut materials: [Material; 256] = blank_palette();
    materials[4] = Material { replacable: false, kind: MaterialKind::Glass, ..Material::default() };
    assert!(matches!(remap_materials(&materials), PaletteMapping::Original(_)));
}

#[test]
fn remap_non_replacable() {
    let mut materials: [Material; 256] = blank_palette();
    let kind = MaterialKind::Dirt;
    materials[4] = Material { replacable: false, kind, ..Material::default() };
    if let PaletteMapping::Remapped(boxed) = remap_materials(&materials) {
        let (remapped, indices_orig_to_new) = boxed.as_ref();
        assert_eq!(remapped[indices_orig_to_new[4] as usize].kind, kind);
        assert_ne!(remapped[4].kind, kind);
    } else {
        panic!("should be remapped");
    }
}

#[test]
fn replace_replacables() {
    let mut materials: [Material; 256] = blank_palette();
    #[allow(clippy::needless_range_loop)]
    for i in 169..=176 {
        materials[i] =
            Material { replacable: true, kind: MaterialKind::HardMetal, ..Material::default() };
    }
    materials[1] =
        Material { replacable: false, kind: MaterialKind::HardMetal, ..Material::default() };
    if let PaletteMapping::Remapped(boxed) = remap_materials(&materials) {
        let (remapped, indices_orig_to_new) = boxed.as_ref();
        assert!(!remapped[indices_orig_to_new[1] as usize].replacable);
    } else {
        panic!("should be remapped");
    }
}

#[test]
fn keep_brake_light_index() {
    let mut materials: [Material; 256] = blank_palette();
    materials[6] = Material { replacable: false, kind: MaterialKind::Glass, ..Material::default() };
    materials[2] = Material { replacable: false, kind: MaterialKind::Dirt, ..Material::default() };
    assert_eq!(remap_materials(&materials).materials_as_ref()[6].kind, MaterialKind::Glass);
}

#[test]
fn ranges_of_the_kinds() {
    assert_eq!(range_for_material_kind(MaterialKind::Absent), None);
    assert_eq!(range_for_material_kind(MaterialKind::Glass), Some([1, 8]));
    assert_eq!(range_for_material_kind(MaterialKind::Foliage), Some([9, 24]));
    assert_eq!(range_for_material_kind(MaterialKind::Dirt), Some([25, 40]));
    assert_eq!(range_for_material_kind(MaterialKind::Rock), Some([41, 56]));
    assert_eq!(range_for_material_kind(MaterialKind::Wood), Some([57, 72]));
    assert_eq!(range_for_material_kind(MaterialKind::Masonry), Some([73, 104]));
    assert_eq!(range_for_material_kind(MaterialKind::Plaster), Some([105, 120]));
    assert_eq!(range_for_material_kind(MaterialKind::Metal), Some([121, 136]));
    assert_eq!(range_for_material_kind(MaterialKind::HeavyMetal), Some([137, 152]));
    assert_eq!(range_for_material_kind(MaterialKind::Plastic), Some([153, 168]));
    assert_eq!(range_for_material_kind(MaterialKind::HardMetal), Some([169, 176]));
    assert_eq!(range_for_material_kind(MaterialKind::HardMasonry), Some([177, 184]));
    assert_eq!(range_for_material_kind(MaterialKind::Unknown13), Some([185, 224]));
    assert_eq!(range_for_material_kind(MaterialKind::Unphysical), Some([225, 240]));
}

#[test]
fn kind_of_each_index_agrees_with_the_ranges() {
    for index in 0..=255u8 {
        let kind = material_kind_for_index(index);
        match range_for_material_kind(kind) {
            Some([lo, hi]) => assert!(lo <= index && index <= hi),
            None => assert!(index == 0 || index > 240),
        }
    }
    assert_eq!(material_kind_for_index(0), MaterialKind::Absent);
    assert_eq!(material_kind_for_index(8), MaterialKind::Glass);
    assert_eq!(material_kind_for_index(9), MaterialKind::Foliage);
    assert_eq!(material_kind_for_index(240), MaterialKind::Unphysical);
    assert_eq!(material_kind_for_index(241), MaterialKind::Absent);
}

#[test]
fn kind_codes_round_trip() {
    for code in 0..=14u8 {
        let kind = MaterialKind::from_byte(code).unwrap();
        assert_eq!(kind.to_byte(), code);
    }
    assert_eq!(MaterialKind::from_byte(15), None);
    assert_eq!(MaterialKind::from_byte(255), None);
    assert_eq!(MaterialKind::from_byte(2), Some(MaterialKind::Wood));
}

#[test]
fn palette_in_order_comes_back_as_it_is() {
    let mut materials = blank_palette();
    materials[1] = Material { kind: MaterialKind::Glass, ..Material::default() };
    materials[30] = Material { kind: MaterialKind::Dirt, replacable: true, ..Material::default() };
    materials[240] = Material { kind: MaterialKind::Unphysical, ..Material::default() };
    assert!(is_in_order(&materials));
    let (mapping, overflowed) = remap_with_report(&materials);
    assert!(overflowed.is_empty());
    match mapping {
        PaletteMapping::Original(original) => {
            assert!(std::ptr::eq(original, &materials));
            // remapping what came back gives it back again
            assert!(matches!(remap_materials(original), PaletteMapping::Original(_)));
        }
        PaletteMapping::Remapped(_) => panic!("should be original"),
    }
}

#[test]
fn single_misplaced_material_changes_places_with_the_first_free_slot() {
    let mut materials = blank_palette();
    materials[25] = Material { kind: MaterialKind::Dirt, ..Material::default() };
    materials[4] = Material { kind: MaterialKind::Dirt, ..Material::default() };
    assert!(!is_in_order(&materials));
    let (mapping, overflowed) = remap_with_report(&materials);
    assert!(overflowed.is_empty());
    match mapping {
        PaletteMapping::Remapped(boxed) => {
            let (remapped, table) = boxed.as_ref();
            // slot 25 is taken by a material that has to stay; 26 is the first free one
            assert_eq!(table[4], 26);
            assert_eq!(table[26], 4);
            assert_eq!(remapped[26].kind, MaterialKind::Dirt);
            assert_eq!(remapped[4].kind, MaterialKind::Absent);
            for i in 0..256usize {
                if i != 4 && i != 26 {
                    assert_eq!(table[i] as usize, i);
                }
                assert_eq!(remapped[table[i] as usize].kind, materials[i].kind);
            }
        }
        PaletteMapping::Original(_) => panic!("should be remapped"),
    }
}

#[test]
fn material_that_has_to_stay_displaces_the_first_replaceable() {
    let mut materials = blank_palette();
    for i in 1..=8 {
        materials[i] = Material {
            kind: MaterialKind::Glass,
            replacable: i >= 3,
            ..Material::default()
        };
    }
    materials[100] = Material { kind: MaterialKind::Glass, ..Material::default() };
    let (mapping, overflowed) = remap_with_report(&materials);
    assert!(overflowed.is_empty());
    match mapping {
        PaletteMapping::Remapped(boxed) => {
            let (remapped, table) = boxed.as_ref();
            assert_eq!(table[100], 3);
            assert_eq!(table[3], 100);
            assert!(!remapped[3].replacable);
            assert!(remapped[100].replacable);
            assert_eq!(remapped[100].kind, MaterialKind::Glass);
            assert_eq!(table[1], 1);
            assert_eq!(table[2], 2);
        }
        PaletteMapping::Original(_) => panic!("should be remapped"),
    }
}

#[test]
fn replaceable_material_never_displaces() {
    let mut materials = blank_palette();
    for i in 1..=8 {
        materials[i] = Material { kind: MaterialKind::Glass, ..Material::default() };
    }
    materials[100] =
        Material { kind: MaterialKind::Glass, replacable: true, ..Material::default() };
    let (mapping, overflowed) = remap_with_report(&materials);
    // a replaceable material that finds no slot is not reported
    assert!(overflowed.is_empty());
    match mapping {
        PaletteMapping::Remapped(boxed) => {
            let (remapped, table) = boxed.as_ref();
            for i in 0..256usize {
                assert_eq!(table[i] as usize, i);
                assert_eq!(remapped[i].kind, materials[i].kind);
            }
        }
        PaletteMapping::Original(_) => panic!("not every material sits where it may"),
    }
}

#[test]
fn full_range_overflows() {
    let mut materials = blank_palette();
    for i in 1..=8 {
        materials[i] = Material { kind: MaterialKind::Glass, ..Material::default() };
    }
    materials[200] = Material { kind: MaterialKind::Glass, ..Material::default() };
    let (mapping, overflowed) = remap_with_report(&materials);
    assert_eq!(overflowed, vec![200u8]);
    match mapping {
        PaletteMapping::Remapped(boxed) => {
            let (_, table) = boxed.as_ref();
            assert_eq!(table[200], 200);
            let failed = failed_mappings(&overflowed, &materials, table);
            assert_eq!(failed.len(), 1);
            assert_eq!(failed[0].kind, MaterialKind::Glass);
            assert_eq!(failed[0].placed_as, MaterialKind::Unknown13);
            assert_eq!(failed[0].index, 200);
        }
        PaletteMapping::Original(_) => panic!("should be remapped"),
    }
}

#[test]
fn translation_table_is_a_permutation() {
    let mut materials = blank_palette();
    materials[4] = Material { kind: MaterialKind::Dirt, ..Material::default() };
    materials[30] = Material { kind: MaterialKind::Glass, ..Material::default() };
    materials[60] = Material { kind: MaterialKind::Rock, replacable: true, ..Material::default() };
    materials[0] = Material { kind: MaterialKind::Wood, ..Material::default() };
    match remap_materials(&materials) {
        PaletteMapping::Remapped(boxed) => {
            let (remapped, table) = boxed.as_ref();
            let mut seen = [false; 256];
            for i in 0..256usize {
                assert!(!seen[table[i] as usize]);
                seen[table[i] as usize] = true;
                assert_eq!(remapped[table[i] as usize].kind, materials[i].kind);
                assert_eq!(remapped[table[i] as usize].replacable, materials[i].replacable);
            }
            for (i, material) in materials.iter().enumerate() {
                if material.kind != MaterialKind::Absent {
                    let new = table[i];
                    assert_eq!(material_kind_for_index(new), material.kind);
                }
            }
        }
        PaletteMapping::Original(_) => panic!("should be remapped"),
    }
}

#[test]
fn tiers_of_the_visits() {
    let stays = Material { kind: MaterialKind::Wood, ..Material::default() };
    let stays_absent = Material::default();
    let gives_way = Material { kind: MaterialKind::Wood, replacable: true, ..Material::default() };
    let unused = Material { replacable: true, ..Material::default() };
    assert_eq!(tier_of(&stays), 0);
    assert_eq!(tier_of(&stays_absent), 0);
    assert_eq!(tier_of(&gives_way), 1);
    assert_eq!(tier_of(&unused), 2);
}

#[test]
fn material_that_loses_its_turn_stays_out_of_place() {
    // glass at index 0 is visited first and takes slot 1, the first slot of
    // its range that is not settled; the dirt that sat there goes to slot
    // 0, which has had its visit
    let mut materials = blank_palette();
    materials[0] = Material { kind: MaterialKind::Glass, ..Material::default() };
    materials[1] = Material { kind: MaterialKind::Dirt, ..Material::default() };
    let (mapping, overflowed) = remap_with_report(&materials);
    assert!(overflowed.is_empty());
    match mapping {
        PaletteMapping::Remapped(boxed) => {
            let (remapped, table) = boxed.as_ref();
            assert_eq!(table[0], 1);
            assert_eq!(table[1], 0);
            assert_eq!(remapped[1].kind, MaterialKind::Glass);
            assert_eq!(remapped[0].kind, MaterialKind::Dirt);
        }
        PaletteMapping::Original(_) => panic!("should be remapped"),
    }
}

#[test]
fn replaceable_materials_are_visited_after_those_that_stay() {
    // the replaceable glass at index 20 comes first by index, but the
    // glass at index 30 has to stay and is visited first
    let mut materials = blank_palette();
    for i in 1..=7 {
        materials[i] = Material { kind: MaterialKind::Glass, ..Material::default() };
    }
    materials[20] = Material { kind: MaterialKind::Glass, replacable: true, ..Material::default() };
    materials[30] = Material { kind: MaterialKind::Glass, ..Material::default() };
    let (mapping, overflowed) = remap_with_report(&materials);
    assert!(overflowed.is_empty());
    match mapping {
        PaletteMapping::Remapped(boxed) => {
            let (_, table) = boxed.as_ref();
            assert_eq!(table[30], 8);
            assert_eq!(table[20], 20);
        }
        PaletteMapping::Original(_) => panic!("should be remapped"),
    }
}
