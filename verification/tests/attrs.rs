use teardown_format::attrs::{flatten, join_as_strings, tag_to_string, tags_to_string};
use teardown_format::material::{MaterialGroup, PaletteIndex};
use teardown_format::tags::{Entry, Tags};

#[test]
fn lists_of_attributes_are_put_one_after_the_other() {
    let deep = vec![
        vec![("a", "1".to_string()), ("b", "2".to_string())],
        vec![],
        vec![("c", "3".to_string())],
    ];
    assert_eq!(
        flatten(deep),
        vec![("a", "1".to_string()), ("b", "2".to_string()), ("c", "3".to_string())]
    );
    assert_eq!(flatten(vec![]), vec![]);
}

#[test]
fn texts_are_joined_with_spaces() {
    assert_eq!(join_as_strings(&[]), "");
    assert_eq!(join_as_strings(&["1.5".to_string()]), "1.5");
    assert_eq!(join_as_strings(&["1".to_string(), "2".to_string(), "".to_string()]), "1 2 ");
}

#[test]
fn tags_as_text() {
    let plain = Entry { key: "alarm".to_string(), value: String::new() };
    let valued = Entry { key: "team".to_string(), value: "red".to_string() };
    assert_eq!(tag_to_string(&plain), "alarm");
    assert_eq!(tag_to_string(&valued), "team=red");
    assert_eq!(tags_to_string(&Tags(vec![plain, valued])), "alarm team=red");
    assert_eq!(tags_to_string(&Tags(vec![])), "");
}

#[test]
fn palette_index_for_meshing() {
    let glass = PaletteIndex(3, true);
    assert_eq!(glass.voxel_merge_value(), 3);
    assert!(!glass.is_empty());
    assert!(!glass.is_opaque());
    assert!(PaletteIndex(0, false).is_empty());
    assert!(PaletteIndex(9, false).is_opaque());
}

#[test]
fn groups_of_the_voxel_editor() {
    let group = |index: u8| MaterialGroup::from(PaletteIndex(index, false));
    assert_eq!(group(0), MaterialGroup::Empty);
    assert_eq!(group(1), MaterialGroup::Glass);
    assert_eq!(group(8), MaterialGroup::Glass);
    assert_eq!(group(9), MaterialGroup::Grass);
    assert_eq!(group(24), MaterialGroup::Grass);
    assert_eq!(group(25), MaterialGroup::Dirt);
    assert_eq!(group(41), MaterialGroup::Rock);
    assert_eq!(group(57), MaterialGroup::Wood);
    assert_eq!(group(73), MaterialGroup::Concrete);
    assert_eq!(group(89), MaterialGroup::Brick);
    assert_eq!(group(105), MaterialGroup::Plaster);
    assert_eq!(group(121), MaterialGroup::WeakMetal);
    assert_eq!(group(137), MaterialGroup::HeavyMetal);
    assert_eq!(group(153), MaterialGroup::Plastic);
    assert_eq!(group(169), MaterialGroup::HardMetal);
    assert_eq!(group(177), MaterialGroup::HardMasonry);
    assert_eq!(group(185), MaterialGroup::Reserved(23));
    assert_eq!(group(224), MaterialGroup::Reserved(27));
    assert_eq!(group(225), MaterialGroup::Unphysical);
    assert_eq!(group(240), MaterialGroup::Unphysical);
    assert_eq!(group(241), MaterialGroup::Reserved(30));
    assert_eq!(group(255), MaterialGroup::Reserved(31));
}
