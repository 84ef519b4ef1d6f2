use teardown_format::grid::BoxIter;
use teardown_format::split::{count_parts, split_voxels};
use teardown_format::voxels::{box_volume, run_length_encode, Voxels};

#[test]
fn test_run_length_encode() {
    assert_eq!(run_length_encode(&[1, 1, 1, 1_u8]), [3, 1_u8]);
    assert_eq!(run_length_encode(&[1_u8]), [0, 1_u8]);
    assert_eq!(run_length_encode(&[]), [] as [u8; 0]);
    assert_eq!(run_length_encode(&[1_u8; 256]), [255, 1_u8]);
    assert_eq!(run_length_encode(&[2_u8; 257]), [255, 2, 0, 2_u8]);
    let mut mixed = vec![0_u8; 257];
    mixed.extend([1_u8; 257]);
    assert_eq!(run_length_encode(&mixed), [255, 0, 0, 0, 255, 1, 0, 1_u8]);
}

fn collect_voxels(voxels: &Voxels) -> Vec<([u32; 3], u8)> {
    let mut walk = voxels.iter();
    let mut all = Vec::new();
    while let Some(voxel) = walk.next() {
        all.push(voxel);
    }
    assert_eq!(walk.next(), None);
    all
}

#[test]
fn long_runs_are_split_at_256() {
    assert_eq!(run_length_encode(&[7_u8; 512]), [255, 7, 255, 7]);
    assert_eq!(run_length_encode(&[7_u8; 513]), [255, 7, 255, 7, 0, 7]);
    assert_eq!(run_length_encode(&[1, 2, 2, 3, 3, 3]), [0, 1, 1, 2, 2, 3]);
}

#[test]
fn box_walk_goes_along_axis_0_first() {
    let mut walk = BoxIter::new([2, 2, 2], [0, 1, 2]);
    let mut cells = Vec::new();
    while let Some(cell) = walk.next() {
        cells.push(cell);
    }
    assert_eq!(
        cells,
        vec![
            [0, 0, 0],
            [1, 0, 0],
            [0, 1, 0],
            [1, 1, 0],
            [0, 0, 1],
            [1, 0, 1],
            [0, 1, 1],
            [1, 1, 1]
        ]
    );
    assert_eq!(walk.next(), None);
}

#[test]
fn box_walk_in_another_axis_order() {
    let mut walk = BoxIter::new([2, 1, 3], [2, 0, 1]);
    let mut cells = Vec::new();
    while let Some(cell) = walk.next() {
        cells.push(cell);
    }
    assert_eq!(cells, vec![[0, 0, 0], [0, 0, 1], [0, 0, 2], [1, 0, 0], [1, 0, 1], [1, 0, 2]]);
}

#[test]
fn box_without_cells_gives_none() {
    let mut walk = BoxIter::new([3, 0, 2], [0, 1, 2]);
    assert_eq!(walk.next(), None);
    assert_eq!(box_volume(&[3, 0, 2]), 0);
    assert_eq!(box_volume(&[3, 4, 5]), 60);
    assert_eq!(box_volume(&[u32::MAX, u32::MAX, u32::MAX]), (u32::MAX as u128).pow(3));
}

#[test]
fn voxels_skip_empty_cells() {
    let voxels = Voxels { size: [3, 2, 1], palette_index_runs: vec![0, 5, 1, 0, 2, 9] };
    assert_eq!(voxels.to_cells(), vec![5, 0, 0, 9, 9, 9]);
    assert_eq!(
        collect_voxels(&voxels),
        vec![([0, 0, 0], 5), ([0, 1, 0], 9), ([1, 1, 0], 9), ([2, 1, 0], 9)]
    );
}

#[test]
fn stream_longer_than_the_box_is_cut() {
    let voxels = Voxels { size: [2, 1, 1], palette_index_runs: vec![9, 3] };
    assert_eq!(voxels.to_cells(), vec![3, 3]);
    assert_eq!(collect_voxels(&voxels), vec![([0, 0, 0], 3), ([1, 0, 0], 3)]);
}

#[test]
fn stream_shorter_than_the_box_ends_the_walk() {
    let voxels = Voxels { size: [2, 2, 1], palette_index_runs: vec![1, 3, 7] };
    assert_eq!(voxels.to_cells(), vec![3, 3]);
    assert_eq!(collect_voxels(&voxels), vec![([0, 0, 0], 3), ([1, 0, 0], 3)]);
}

#[test]
fn empty_volume_has_no_voxels() {
    let voxels = Voxels { size: [0, 0, 0], palette_index_runs: vec![] };
    assert_eq!(collect_voxels(&voxels), vec![]);
    assert_eq!(voxels.to_cells(), Vec::<u8>::new());
}

#[test]
fn walk_can_begin_anew() {
    let voxels = Voxels { size: [2, 1, 1], palette_index_runs: vec![1, 4] };
    assert_eq!(collect_voxels(&voxels), collect_voxels(&voxels));
}

#[test]
fn encoding_again_keeps_the_voxels() {
    // a stream that wastes pairs
    let wasteful = Voxels {
        size: [4, 2, 1],
        palette_index_runs: vec![0, 1, 0, 1, 0, 0, 0, 2, 1, 2, 1, 0],
    };
    let cells = wasteful.to_cells();
    assert_eq!(cells, vec![1, 1, 0, 2, 2, 2, 0, 0]);
    let again = Voxels { size: wasteful.size, palette_index_runs: run_length_encode(&cells) };
    assert_eq!(again.palette_index_runs, vec![1, 1, 0, 0, 2, 2, 1, 0]);
    assert_eq!(collect_voxels(&again), collect_voxels(&wasteful));
    assert_eq!(again.to_cells(), cells);
}

#[test]
fn duplicate_is_equal() {
    let voxels = Voxels { size: [2, 1, 1], palette_index_runs: vec![1, 4] };
    let copy = voxels.duplicate();
    assert_eq!(copy.size, voxels.size);
    assert_eq!(copy.palette_index_runs, voxels.palette_index_runs);
}

#[test]
fn small_volume_is_one_part() {
    let voxels = Voxels { size: [256, 3, 1], palette_index_runs: vec![255, 1, 255, 2, 255, 3] };
    let parts = split_voxels::<256>(voxels);
    assert_eq!(parts.len(), 1);
    assert_eq!(parts[0].relative_pos, [0, 0, 0]);
    assert_eq!(parts[0].voxels.size, [256, 3, 1]);
    assert_eq!(parts[0].voxels.palette_index_runs, vec![255, 1, 255, 2, 255, 3]);
}

fn with_offset(parts: &[teardown_format::split::VoxelsPart]) -> Vec<([u32; 3], u8)> {
    let mut all = Vec::new();
    for part in parts {
        for (at, index) in collect_voxels(&part.voxels) {
            all.push((
                [
                    at[0] + part.relative_pos[0],
                    at[1] + part.relative_pos[1],
                    at[2] + part.relative_pos[2],
                ],
                index,
            ));
        }
    }
    all.sort();
    all
}

#[test]
fn large_volume_is_split_and_put_together_again() {
    // 300 x 2 x 1, each cell with another palette index than its neighbour
    let mut cells = Vec::new();
    for y in 0..2u32 {
        for x in 0..300u32 {
            cells.push(((x + 7 * y) % 5) as u8);
        }
    }
    let voxels = Voxels { size: [300, 2, 1], palette_index_runs: run_length_encode(&cells) };
    let mut expected = collect_voxels(&voxels);
    expected.sort();
    assert_eq!(count_parts::<256>(&voxels.size), Some(2));
    let parts = split_voxels::<256>(voxels);
    assert_eq!(parts.len(), 2);
    assert_eq!(parts[0].relative_pos, [0, 0, 0]);
    assert_eq!(parts[0].voxels.size, [256, 2, 1]);
    assert_eq!(parts[1].relative_pos, [256, 0, 0]);
    assert_eq!(parts[1].voxels.size, [44, 2, 1]);
    for part in &parts {
        assert!(part.voxels.size.iter().all(|&dim| dim <= 256));
    }
    assert_eq!(with_offset(&parts), expected);
}

#[test]
fn parts_are_numbered_along_axis_0_first() {
    let voxels = Voxels { size: [2, 3, 1], palette_index_runs: vec![5, 1] };
    let mut expected = collect_voxels(&voxels);
    expected.sort();
    let parts = split_voxels::<2>(voxels);
    // 2 / 2 + 1 pieces along axis 0, 3 / 2 + 1 along axis 1, 1 / 2 + 1 along axis 2
    assert_eq!(parts.len(), 4);
    let origins: Vec<[u32; 3]> = parts.iter().map(|part| part.relative_pos).collect();
    assert_eq!(origins, vec![[0, 0, 0], [2, 0, 0], [0, 2, 0], [2, 2, 0]]);
    let sizes: Vec<[u32; 3]> = parts.iter().map(|part| part.voxels.size).collect();
    assert_eq!(sizes, vec![[2, 2, 1], [0, 2, 1], [2, 1, 1], [0, 1, 1]]);
    assert_eq!(parts[0].voxels.palette_index_runs, vec![3, 1]);
    assert_eq!(parts[1].voxels.palette_index_runs, Vec::<u8>::new());
    assert_eq!(parts[2].voxels.palette_index_runs, vec![1, 1]);
    assert_eq!(with_offset(&parts), expected);
}

#[test]
fn parts_of_a_short_stream_end_where_the_stream_ends() {
    let voxels = Voxels { size: [3, 2, 1], palette_index_runs: vec![3, 4] };
    let mut expected = collect_voxels(&voxels);
    expected.sort();
    let parts = split_voxels::<2>(voxels);
    assert_eq!(parts.len(), 4);
    // the stream holds the first row and the first cell of the second
    assert_eq!(parts[0].voxels.size, [2, 2, 1]);
    assert_eq!(parts[0].voxels.palette_index_runs, vec![2, 4]);
    assert_eq!(parts[1].voxels.size, [1, 2, 1]);
    assert_eq!(parts[1].voxels.palette_index_runs, vec![0, 4]);
    assert_eq!(parts[2].voxels.palette_index_runs, Vec::<u8>::new());
    assert_eq!(parts[3].voxels.palette_index_runs, Vec::<u8>::new());
    assert_eq!(with_offset(&parts), expected);
}

#[test]
fn parts_beyond_counting() {
    assert_eq!(count_parts::<256>(&[255, 255, 255]), Some(1));
    assert_eq!(count_parts::<256>(&[256, 256, 256]), Some(8));
    assert_eq!(count_parts::<1>(&[u32::MAX, u32::MAX, u32::MAX]), None);
}

#[test]
fn stream_that_fills_its_box() {
    let with_runs =
        |size: [u32; 3], runs: &[u8]| Voxels { size, palette_index_runs: runs.to_vec() };
    assert!(with_runs([3, 2, 1], &[0, 5, 1, 0, 2, 9]).has_all_cells());
    assert!(!with_runs([3, 2, 1], &[0, 5, 1, 0, 1, 9]).has_all_cells());
    assert!(!with_runs([3, 2, 1], &[0, 5, 1, 0, 3, 9]).has_all_cells());
    assert!(with_runs([0, 2, 1], &[]).has_all_cells());
    assert!(with_runs([16, 16, 2], &[255, 1, 255, 0, 9]).has_all_cells());
}
