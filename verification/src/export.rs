//! Preparing the voxel volumes of a scene for the store: remapping the
//! palettes, translating the palette indices of each shape, and splitting
//! the shapes that are too large for one model.

use crate::entity::{EntityKind, EntityKindView, EntityView, Shape, ShapeView};
use crate::palette::Palette;
use crate::parser::views;
use crate::remap::{is_remapping, remap_materials, PaletteMapping};
use crate::scene::{preorder_all, Scene};
use crate::split::{count_parts, is_oversized, is_split, part_count, split_voxels, VoxelsPart};
use crate::voxels::{expand, expand_pairs, Voxels};
use vstd::prelude::*;

verus! {

/// The greatest length of a model along an axis.
pub const MAX_MODEL_SIDE: usize = 256;

/// The stream with each palette index but 0 replaced by what the table
/// gives for it. The palette indices are the second bytes of the pairs.
pub open spec fn translated(runs: Seq<u8>, table: Seq<u8>) -> Seq<u8> {
    Seq::new(
        runs.len(),
        |i: int|
            if i % 2 == 1 && runs[i] != 0 {
                table[runs[i] as int]
            } else {
                runs[i]
            },
    )
}

/// The palette index that the table gives for a cell: 0 stays 0.
pub open spec fn translated_cell(cell: u8, table: Seq<u8>) -> u8 {
    if cell != 0 {
        table[cell as int]
    } else {
        0
    }
}

/// Translating a stream translates each of its cells and keeps their
/// number and order.
pub proof fn lemma_translated_cells(runs: Seq<u8>, table: Seq<u8>, pairs: nat)
    requires
        2 * pairs <= runs.len(),
    ensures
        expand_pairs(translated(runs, table), pairs).len() == expand_pairs(runs, pairs).len(),
        forall|k: int|
            0 <= k < expand_pairs(runs, pairs).len() ==> #[trigger] expand_pairs(
                translated(runs, table),
                pairs,
            )[k] == translated_cell(expand_pairs(runs, pairs)[k], table),
    decreases pairs,
{
    if pairs > 0 {
        lemma_translated_cells(runs, table, (pairs - 1) as nat);
        let new = translated(runs, table);
        assert(new[2 * pairs - 2] == runs[2 * pairs - 2]);
        assert(new[2 * pairs - 1] == translated_cell(runs[2 * pairs - 1], table));
    }
}

/// Translating the stream of a volume translates each of its cells.
pub proof fn lemma_translated_stream(runs: Seq<u8>, table: Seq<u8>)
    ensures
        expand(translated(runs, table)).len() == expand(runs).len(),
        forall|k: int|
            0 <= k < expand(runs).len() ==> #[trigger] expand(translated(runs, table))[k]
                == translated_cell(expand(runs)[k], table),
{
    lemma_translated_cells(runs, table, runs.len() / 2);
}

/// The volume with each palette index but 0 replaced by what the table
/// gives for it.
pub fn translate_voxels(voxels: &Voxels, indices_orig_to_new: &[u8; 256]) -> (moved: Voxels)
    ensures
        moved.size == voxels.size,
        moved.palette_index_runs@ == translated(voxels.palette_index_runs@, indices_orig_to_new@),
{
    let runs = &voxels.palette_index_runs;
    let mut palette_index_runs: Vec<u8> = Vec::new();
    let mut i: usize = 0;
    while i < runs.len()
        invariant
            i <= runs@.len(),
            palette_index_runs@.len() == i,
            forall|k: int|
                0 <= k < i ==> palette_index_runs@[k] == translated(
                    runs@,
                    indices_orig_to_new@,
                )[k],
        decreases runs@.len() - i,
    {
        let byte = runs[i];
        if i % 2 == 1 && byte != 0 {
            palette_index_runs.push(indices_orig_to_new[byte as usize]);
        } else {
            palette_index_runs.push(byte);
        }
        i = i + 1;
    }
    assert(palette_index_runs@ =~= translated(runs@, indices_orig_to_new@));
    Voxels { size: voxels.size, palette_index_runs }
}

/// Remaps each palette of a scene.
pub fn remap_palettes<'a>(palettes: &'a Vec<Palette>) -> (mappings: Vec<PaletteMapping<'a>>)
    ensures
        mappings@.len() == palettes@.len(),
        forall|i: int|
            0 <= i < mappings@.len() ==> is_remapping(
                #[trigger] mappings@[i],
                palettes@[i].materials@,
            ),
{
    let mut mappings: Vec<PaletteMapping<'a>> = Vec::new();
    let mut i: usize = 0;
    while i < palettes.len()
        invariant
            i <= palettes@.len(),
            mappings@.len() == i,
            forall|k: int|
                0 <= k < i ==> is_remapping(#[trigger] mappings@[k], palettes@[k].materials@),
        decreases palettes@.len() - i,
    {
        mappings.push(remap_materials(&palettes[i].materials));
        i = i + 1;
    }
    mappings
}

/// Why a shape gives no voxels for the store.
#[derive(Clone, Copy, Debug, PartialEq, Eq, Structural)]
pub enum ShapeIssue {
    /// The scene has no palette where the shape says its palette is.
    MissingPalette,
    /// The shape is so large that the machine cannot count its parts.
    TooLarge,
}

/// The voxels of one shape as they go to the store.
#[derive(Debug)]
pub struct ShapeExport {
    /// The handle of the entity that is the shape.
    pub handle: u32,
    /// The position of the shape's palette among the palettes of the scene.
    pub palette: u32,
    /// The parts of the shape with their palette indices translated, or
    /// why there are none.
    pub parts: Result<Vec<VoxelsPart>, ShapeIssue>,
}

/// The stream of a shape as it goes to the store: translated where the
/// palette of the shape was rearranged.
pub open spec fn export_stream(runs: Seq<u8>, mapping: PaletteMapping) -> Seq<u8> {
    match mapping {
        PaletteMapping::Original(_) => runs,
        PaletteMapping::Remapped(remapped) => translated(runs, remapped.1@),
    }
}

/// Whether `export` is what the shape `shape` of the entity with the
/// handle `handle` gives with the given mappings of the scene's palettes.
pub open spec fn is_export(
    export: ShapeExport,
    handle: u32,
    shape: ShapeView,
    mappings: Seq<PaletteMapping>,
) -> bool {
    &&& export.handle == handle
    &&& export.palette == shape.palette
    &&& if shape.palette >= mappings.len() {
        export.parts == Err::<Vec<VoxelsPart>, ShapeIssue>(ShapeIssue::MissingPalette)
    } else if is_oversized(shape.voxels.size, 256) && part_count(shape.voxels.size, 256)
        > usize::MAX {
        export.parts == Err::<Vec<VoxelsPart>, ShapeIssue>(ShapeIssue::TooLarge)
    } else {
        export.parts matches Ok(parts) && is_split(
            parts@,
            shape.voxels.size,
            export_stream(shape.voxels.palette_index_runs, mappings[shape.palette as int]),
            256,
        )
    }
}

/// Prepares the voxels of one shape for the store.
pub fn export_shape(handle: u32, shape: &Shape, mappings: &Vec<PaletteMapping>) -> (export:
    ShapeExport)
    ensures
        is_export(export, handle, shape@, mappings@),
{
    let palette = shape.palette;
    if palette as usize >= mappings.len() {
        return ShapeExport { handle, palette, parts: Err(ShapeIssue::MissingPalette) };
    }
    let oversized = shape.voxels.size[0] > 256 || shape.voxels.size[1] > 256
        || shape.voxels.size[2] > 256;
    if oversized && count_parts::<256>(&shape.voxels.size).is_none() {
        return ShapeExport { handle, palette, parts: Err(ShapeIssue::TooLarge) };
    }
    let voxels = match &mappings[palette as usize] {
        PaletteMapping::Original(_) => shape.voxels.duplicate(),
        PaletteMapping::Remapped(remapped) => translate_voxels(&shape.voxels, &remapped.1),
    };
    ShapeExport { handle, palette, parts: Ok(split_voxels::<256>(voxels)) }
}

/// The shapes among the first `n` of the given entities, each with the
/// handle of its entity.
pub open spec fn shapes(entities: Seq<EntityView>, n: nat) -> Seq<(u32, ShapeView)>
    decreases n,
{
    if n == 0 {
        Seq::empty()
    } else {
        let before = shapes(entities, (n - 1) as nat);
        match entities[n - 1].kind {
            EntityKindView::Shape(shape) => before.push((entities[n - 1].handle, shape)),
            _ => before,
        }
    }
}

/// Prepares the voxels of every shape of a scene for the store. The
/// shapes come in the order of the tree: each entity before its children.
pub fn export_shapes(scene: &Scene, mappings: &Vec<PaletteMapping>) -> (exports: Vec<ShapeExport>)
    ensures
        ({
            let all = preorder_all(scene@.entities, scene@.entities.len());
            let found = shapes(all, all.len());
            &&& exports@.len() == found.len()
            &&& forall|k: int|
                0 <= k < found.len() ==> is_export(
                    #[trigger] exports@[k],
                    found[k].0,
                    found[k].1,
                    mappings@,
                )
        }),
{
    let entities = scene.iter_entities();
    let ghost all = preorder_all(scene@.entities, scene@.entities.len());
    let mut exports: Vec<ShapeExport> = Vec::new();
    let mut i: usize = 0;
    while i < entities.len()
        invariant
            i <= entities@.len(),
            views(entities@) == all,
            exports@.len() == shapes(all, i as nat).len(),
            forall|k: int|
                0 <= k < exports@.len() ==> is_export(
                    #[trigger] exports@[k],
                    shapes(all, i as nat)[k].0,
                    shapes(all, i as nat)[k].1,
                    mappings@,
                ),
        decreases entities@.len() - i,
    {
        let entity = entities[i];
        assert(all[i as int] == entity@);
        match &entity.kind {
            EntityKind::Shape(shape) => {
                exports.push(export_shape(entity.handle, shape, mappings));
            },
            _ => {},
        }
        i = i + 1;
    }
    exports
}

} // verus!
