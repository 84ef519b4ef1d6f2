use teardown_format::hash::{compute_n, n_from_bytes, n_to_bytes, n_to_str, str_to_n};
use teardown_format::material::{Material, MaterialKind};
use teardown_format::store::{node_of, Document, Model, Node, Store, StoreFile, Voxel};
use teardown_format::voxels::Voxels;

fn some_palette(seed: u32) -> [Material; 256] {
    let mut palette = [Material::default(); 256];
    palette[1].kind = MaterialKind::Glass;
    palette[1].reflectivity = teardown_format::numeric::Real32(seed);
    palette
}

fn some_voxels() -> Voxels {
    Voxels { size: [3, 2, 1], palette_index_runs: vec![0, 5, 1, 0, 2, 9] }
}

#[test]
fn hash_names_round_trip() {
    for n in [0u64, 1, 255, 256, 0x0123_4567_89ab_cdef, u64::MAX] {
        assert_eq!(str_to_n(&n_to_str(n)), Ok(n));
    }
}

#[test]
fn hash_names_are_url_safe_base64_of_the_little_endian_bytes() {
    assert_eq!(n_to_str(0), "AAAAAAAAAAA");
    assert_eq!(n_to_str(1), "AQAAAAAAAAA");
    assert_eq!(n_to_str(u64::MAX), "__________8");
    assert_eq!(n_to_str(0x0807_0605_0403_02fb), "-wIDBAUGBwg");
    assert_eq!(str_to_n("-wIDBAUGBwg"), Ok(0x0807_0605_0403_02fb));
}

#[test]
fn texts_that_name_no_hash() {
    assert_eq!(str_to_n(""), Err(()));
    assert_eq!(str_to_n("AAAA"), Err(()));
    assert_eq!(str_to_n("not base64!"), Err(()));
    assert_eq!(str_to_n("AAAAAAAAAAAAAAAA"), Err(()));
    assert_eq!(str_to_n("+wIDBAUGBwg"), Err(()));
}

#[test]
fn hash_depends_on_the_content() {
    let a = some_voxels();
    let b = some_voxels();
    assert_eq!(compute_n(&a), compute_n(&b));
    let other = Voxels { size: [3, 2, 1], palette_index_runs: vec![0, 5, 1, 0, 2, 8] };
    assert_ne!(compute_n(&a), compute_n(&other));
    let other_size = Voxels { size: [2, 3, 1], palette_index_runs: vec![0, 5, 1, 0, 2, 9] };
    assert_ne!(compute_n(&a), compute_n(&other_size));
    assert_eq!(compute_n(&some_palette(1)), compute_n(&some_palette(1)));
    assert_ne!(compute_n(&some_palette(1)), compute_n(&some_palette(2)));
}

#[test]
fn fresh_file_holds_the_palette_and_is_clean() {
    let palette = some_palette(3);
    let file = StoreFile::new("abc.vox".to_string(), None, &palette);
    assert_eq!(file.path(), "abc.vox");
    assert!(!file.is_dirty());
    assert_eq!(file.document().palette.len(), 255);
    assert_eq!(file.document().palette[0].kind, MaterialKind::Glass);
    assert_eq!(file.document().palette[0].reflectivity.0, 3);
    assert!(file.document().nodes.is_empty());
}

#[test]
fn same_voxels_are_stored_once() {
    let palette = some_palette(3);
    let mut file = StoreFile::new("abc.vox".to_string(), None, &palette);
    let voxels = some_voxels();
    file.store_voxel_data(&voxels);
    assert!(file.is_dirty());
    assert_eq!(file.document().nodes.len(), 1);
    file.mark_written();
    assert!(!file.is_dirty());
    file.store_voxel_data(&voxels);
    assert!(!file.is_dirty());
    assert_eq!(file.document().nodes.len(), 1);
    let other = Voxels { size: [1, 1, 1], palette_index_runs: vec![0, 2] };
    file.store_voxel_data(&other);
    assert!(file.is_dirty());
    assert_eq!(file.document().nodes.len(), 2);
}

#[test]
fn node_of_a_volume() {
    let palette = some_palette(3);
    let mut file = StoreFile::new("abc.vox".to_string(), None, &palette);
    let voxels = Voxels { size: [300, 7, 4], palette_index_runs: vec![255, 1, 43, 2, 0, 0, 1, 3] };
    file.store_voxel_data(&voxels);
    let node = &file.document().nodes[0];
    assert_eq!(node.name, Some(n_to_str(compute_n(&voxels))));
    assert_eq!(node.model.size, [256, 7, 4]);
    assert_eq!(node.translation, [128, 2, 2]);
    // cells 0..=255 hold 1; cells 256..=299 hold 2 and lie outside the model;
    // then one empty cell and two with 3 in the next row
    assert_eq!(node.model.voxels.len(), 256 + 2);
    assert_eq!(node.model.voxels[0].pos, [0, 0, 0]);
    assert_eq!(node.model.voxels[0].index, 1);
    assert_eq!(node.model.voxels[255].pos, [255, 0, 0]);
    assert_eq!(node.model.voxels[255].index, 1);
    assert_eq!(node.model.voxels[256].pos, [1, 1, 0]);
    assert_eq!(node.model.voxels[256].index, 3);
    assert_eq!(node.model.voxels[257].pos, [2, 1, 0]);
    assert_eq!(node.model.voxels[257].index, 3);
}

#[test]
fn flat_volume_is_placed_below_the_origin() {
    let palette = some_palette(3);
    let mut file = StoreFile::new("abc.vox".to_string(), None, &palette);
    file.store_voxel_data(&Voxels { size: [1, 1, 1], palette_index_runs: vec![0, 2] });
    assert_eq!(file.document().nodes[0].translation, [0, -1, 0]);
}

#[test]
fn document_from_disk_is_indexed_by_the_names_of_its_nodes() {
    let palette = some_palette(3);
    let voxels = some_voxels();
    let known = Node {
        name: Some(n_to_str(compute_n(&voxels))),
        translation: [0, 0, 0],
        model: Model { size: [1, 1, 1], voxels: vec![Voxel { pos: [0, 0, 0], index: 1 }] },
    };
    let nameless =
        Node { name: None, translation: [0, 0, 0], model: Model { size: [0; 3], voxels: vec![] } };
    let odd = Node {
        name: Some("a shape".to_string()),
        translation: [0, 0, 0],
        model: Model { size: [0; 3], voxels: vec![] },
    };
    let on_disk = Document { palette: vec![], nodes: vec![nameless, known, odd] };
    let mut file = StoreFile::new("abc.vox".to_string(), Some(on_disk), &palette);
    assert_eq!(file.document().nodes.len(), 3);
    assert!(file.document().palette.is_empty());
    file.store_voxel_data(&voxels);
    assert!(!file.is_dirty());
    assert_eq!(file.document().nodes.len(), 3);
    file.store_voxel_data(&Voxels { size: [1, 1, 1], palette_index_runs: vec![0, 2] });
    assert!(file.is_dirty());
    assert_eq!(file.document().nodes.len(), 4);
}

#[test]
fn store_gives_one_file_for_each_palette() {
    let mut store = Store::new("somewhere/hash".to_string());
    assert_eq!(store.hash_vox_dir(), "somewhere/hash");
    assert_eq!(store.len(), 0);
    let a = some_palette(1);
    let b = some_palette(2);
    let handles = store.load_palettes(&[&a, &b, &a, &a, &b], vec![None, None, None, None, None]);
    assert_eq!(handles, vec![0, 1, 0, 0, 1]);
    assert_eq!(store.len(), 2);
    assert_eq!(store.handle_of(compute_n(&a)), Some(0));
    assert_eq!(store.handle_of(compute_n(&b)), Some(1));
    assert_eq!(store.handle_of(compute_n(&some_palette(9))), None);
    let name = format!("{}.vox", n_to_str(compute_n(&b)));
    assert_eq!(store.file(1).unwrap().path(), &name);
    assert!(store.file(2).is_none());
    assert_eq!(store.load_palette(&b, None), 1);
    assert_eq!(store.load_palette(&some_palette(9), None), 2);
    assert_eq!(store.len(), 3);
}

#[test]
fn store_takes_what_was_found_on_disk_at_the_first_reference() {
    let mut store = Store::new("hash".to_string());
    let a = some_palette(1);
    let found = Document {
        palette: vec![],
        nodes: vec![Node {
            name: Some("x".to_string()),
            translation: [1, 2, 3],
            model: Model { size: [0; 3], voxels: vec![] },
        }],
    };
    let later = Document { palette: vec![], nodes: vec![] };
    let handles = store.load_palettes(&[&a, &a], vec![Some(found), Some(later)]);
    assert_eq!(handles, vec![0, 0]);
    assert_eq!(store.file(0).unwrap().document().nodes.len(), 1);
    // a list that is too short counts as nothing found
    let b = some_palette(2);
    let handles = store.load_palettes(&[&a, &b], vec![]);
    assert_eq!(handles, vec![0, 1]);
    assert_eq!(store.file(1).unwrap().document().palette.len(), 255);
}

#[test]
fn store_knows_which_files_to_write() {
    let mut store = Store::new("hash".to_string());
    let a = some_palette(1);
    let b = some_palette(2);
    let c = some_palette(3);
    let handles = store.load_palettes(&[&a, &b, &c], vec![None, None, None]);
    assert_eq!(store.dirty_files(), Vec::<usize>::new());
    assert!(store.store_voxel_data(handles[2], &some_voxels()));
    assert!(store.store_voxel_data(handles[0], &some_voxels()));
    assert!(!store.store_voxel_data(7, &some_voxels()));
    assert_eq!(store.dirty_files(), vec![0, 2]);
    store.mark_written(0);
    store.mark_written(7);
    assert_eq!(store.dirty_files(), vec![2]);
    assert!(store.store_voxel_data(handles[0], &some_voxels()));
    assert_eq!(store.dirty_files(), vec![2]);
    assert_eq!(store.file(0).unwrap().document().nodes.len(), 1);
    store.mark_written(2);
    assert!(store.dirty_files().is_empty());
}

#[test]
fn hashes_as_bytes() {
    assert_eq!(n_to_bytes(0x0807_0605_0403_0201), [1, 2, 3, 4, 5, 6, 7, 8]);
    assert_eq!(n_from_bytes(&[1, 2, 3, 4, 5, 6, 7, 8]), Ok(0x0807_0605_0403_0201));
    assert_eq!(n_from_bytes(&[1, 2, 3, 4, 5, 6, 7]), Err(()));
    assert_eq!(n_from_bytes(&[1, 2, 3, 4, 5, 6, 7, 8, 9]), Err(()));
    assert_eq!(n_from_bytes(&[]), Err(()));
}

#[test]
fn node_with_a_given_name() {
    let node = node_of(&some_voxels(), "abc".to_string());
    assert_eq!(node.name.as_deref(), Some("abc"));
    assert_eq!(node.model.size, [3, 2, 1]);
    assert_eq!(node.translation, [1, 0, 0]);
    let voxels: Vec<([u8; 3], u8)> =
        node.model.voxels.iter().map(|voxel| (voxel.pos, voxel.index)).collect();
    assert_eq!(voxels, vec![([0, 0, 0], 5), ([0, 1, 0], 9), ([1, 1, 0], 9), ([2, 1, 0], 9)]);
}
