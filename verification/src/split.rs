//! Splitting a volume that is too large for one model of the interchange
//! format into parts that fit.
//!
//! Along each axis the volume is cut every `max` cells. An axis of length
//! `n` gives `n / max + 1` pieces: `n / max` of length `max` and a last one
//! of length `n % max`, which is empty where `max` divides `n`. Each part
//! holds the cells of the volume that fall into it, encoded anew.

use crate::grid::{cell_at, format_order, inside, rank, volume, BoxIter};
use crate::grid::{lemma_cell_at_rank, lemma_rank_cell_at};
use crate::voxels::{cells_in_box, expand, is_minimal, run_length_encode, solid_from, Voxels};
use vstd::arithmetic::div_mod::*;
use vstd::prelude::*;

verus! {

/// One part of a volume that has been split.
#[derive(Debug)]
pub struct VoxelsPart {
    /// Where the part begins in the volume.
    pub relative_pos: [u32; 3],
    pub voxels: Voxels,
}

/// Whether a volume of the given size is longer than `max` along some axis.
pub open spec fn is_oversized(size: [u32; 3], max: int) -> bool {
    size[0] > max || size[1] > max || size[2] > max
}

/// Number of pieces that an axis of length `dim` is cut into.
pub open spec fn pieces(dim: u32, max: int) -> int {
    dim as int / max + 1
}

/// Length of piece `n` of an axis of length `dim`.
pub open spec fn piece_extent(dim: u32, max: int, n: int) -> int {
    if n == dim as int / max {
        dim as int % max
    } else {
        max
    }
}

/// Number of parts that a volume of the given size is split into.
pub open spec fn part_count(size: [u32; 3], max: int) -> int {
    pieces(size[0], max) * pieces(size[1], max) * pieces(size[2], max)
}

/// For each axis the number of the piece that part `n` is made of. Parts
/// are numbered with axis 0 varying fastest.
pub open spec fn part_index(size: [u32; 3], max: int, n: int) -> (int, int, int) {
    (
        n % pieces(size[0], max),
        (n / pieces(size[0], max)) % pieces(size[1], max),
        (n / pieces(size[0], max)) / pieces(size[1], max),
    )
}

/// Whether `part` names a part of a volume of the given size.
pub open spec fn is_part_index(size: [u32; 3], max: int, part: (int, int, int)) -> bool {
    &&& 0 <= part.0 < pieces(size[0], max)
    &&& 0 <= part.1 < pieces(size[1], max)
    &&& 0 <= part.2 < pieces(size[2], max)
}

/// Where a part begins in the volume.
pub open spec fn part_origin(max: int, part: (int, int, int)) -> [u32; 3] {
    [(part.0 * max) as u32, (part.1 * max) as u32, (part.2 * max) as u32]
}

/// The size of a part.
pub open spec fn part_size(size: [u32; 3], max: int, part: (int, int, int)) -> [u32; 3] {
    [
        piece_extent(size[0], max, part.0) as u32,
        piece_extent(size[1], max, part.1) as u32,
        piece_extent(size[2], max, part.2) as u32,
    ]
}

/// The cell of the volume that lies at `local` in a part that begins at
/// `origin`.
pub open spec fn shifted(origin: [u32; 3], local: [u32; 3]) -> [u32; 3] {
    [
        (origin[0] + local[0]) as u32,
        (origin[1] + local[1]) as u32,
        (origin[2] + local[2]) as u32,
    ]
}

/// The place in the volume of cell `j` of a part.
pub open spec fn whole_place(size: [u32; 3], max: int, part: (int, int, int), j: int) -> int {
    rank(
        size,
        format_order(),
        shifted(part_origin(max, part), cell_at(part_size(size, max, part), format_order(), j)),
    )
}

/// The palette index of cell `j` of a part: that of the cell of the volume
/// that lies there, and 0 where the cells of the volume end before it.
pub open spec fn part_cell(
    size: [u32; 3],
    cells: Seq<u8>,
    max: int,
    part: (int, int, int),
    j: int,
) -> u8 {
    let whole = whole_place(size, max, part, j);
    if 0 <= whole < cells.len() {
        cells[whole]
    } else {
        0
    }
}

/// The first cell of a part from `from` on that lies behind the first
/// `cells` cells of the volume; the number of cells of the part where no
/// cell from `from` on does.
pub open spec fn part_reach(
    size: [u32; 3],
    cells: nat,
    max: int,
    part: (int, int, int),
    from: nat,
) -> nat
    decreases volume(part_size(size, max, part)) - from,
{
    if from >= volume(part_size(size, max, part)) || whole_place(size, max, part, from as int)
        >= cells {
        from
    } else {
        part_reach(size, cells, max, part, from + 1)
    }
}

/// The palette indices of the cells of a part, in the order of the
/// format, as far as the cells of the volume reach: a volume whose stream
/// is too short leaves the last cells of its parts out.
pub open spec fn part_cells(size: [u32; 3], cells: Seq<u8>, max: int, part: (int, int, int)) -> Seq<
    u8,
> {
    Seq::new(
        part_reach(size, cells.len(), max, part, 0),
        |j: int| part_cell(size, cells, max, part, j),
    )
}

/// Whether `piece` is the part `part` of the volume with the given size and
/// cells: it begins where the part begins, has its size, and holds its
/// cells in as few pairs as they allow.
pub open spec fn is_part(
    piece: VoxelsPart,
    size: [u32; 3],
    cells: Seq<u8>,
    max: int,
    part: (int, int, int),
) -> bool {
    &&& piece.relative_pos == part_origin(max, part)
    &&& piece.voxels.size == part_size(size, max, part)
    &&& expand(piece.voxels.palette_index_runs@) == part_cells(size, cells, max, part)
    &&& is_minimal(piece.voxels.palette_index_runs@)
}

/// Whether `parts` is what the volume with the given size and stream is
/// split into: the volume itself where it is not oversized, else each of
/// its parts in the order of their numbers.
pub open spec fn is_split(parts: Seq<VoxelsPart>, size: [u32; 3], runs: Seq<u8>, max: int) -> bool {
    if is_oversized(size, max) {
        &&& parts.len() == part_count(size, max)
        &&& forall|n: int|
            0 <= n < parts.len() ==> is_part(
                #[trigger] parts[n],
                size,
                cells_in_box(size, runs),
                max,
                part_index(size, max, n),
            )
    } else {
        &&& parts.len() == 1
        &&& parts[0].relative_pos == [0u32, 0u32, 0u32]
        &&& parts[0].voxels.size == size
        &&& parts[0].voxels.palette_index_runs@ == runs
    }
}

/// The non-empty voxels among the given cells of a box, each with its
/// coordinates.
pub open spec fn voxel_set(size: [u32; 3], cells: Seq<u8>) -> Set<([u32; 3], u8)> {
    Set::new(
        |voxel: ([u32; 3], u8)|
            exists|k: int|
                0 <= k < cells.len() && k < volume(size) && cells[k] != 0 && voxel == (
                    cell_at(size, format_order(), k),
                    #[trigger] cells[k],
                ),
    )
}

/// The non-empty voxels of part `part` of a volume, each with its
/// coordinates in the volume.
pub open spec fn part_voxel_set(
    size: [u32; 3],
    cells: Seq<u8>,
    max: int,
    part: (int, int, int),
) -> Set<([u32; 3], u8)> {
    Set::new(
        |voxel: ([u32; 3], u8)|
            exists|j: int|
                0 <= j < volume(part_size(size, max, part)) && part_cell(size, cells, max, part, j)
                    != 0 && voxel == (
                    shifted(
                        part_origin(max, part),
                        cell_at(part_size(size, max, part), format_order(), j),
                    ),
                    #[trigger] part_cell(size, cells, max, part, j),
                ),
    )
}

/// A voxel is among the non-empty voxels from the cell `from` on exactly
/// where it is the voxel of a non-empty cell from there on.
pub proof fn lemma_solid_from_contains(
    size: [u32; 3],
    cells: Seq<u8>,
    from: int,
    voxel: ([u32; 3], u8),
)
    requires
        0 <= from,
    ensures
        solid_from(size, cells, from).contains(voxel) <==> exists|k: int|
            from <= k < cells.len() && cells[k] != 0 && voxel == (
                cell_at(size, format_order(), k),
                #[trigger] cells[k],
            ),
    decreases cells.len() - from,
{
    let rest = solid_from(size, cells, from + 1);
    if from < cells.len() {
        lemma_solid_from_contains(size, cells, from + 1, voxel);
        let here = (cell_at(size, format_order(), from), cells[from]);
        if cells[from] != 0 {
            let all = seq![here] + rest;
            assert(all[0] == here);
            if rest.contains(voxel) {
                let i = choose|i: int| 0 <= i < rest.len() && rest[i] == voxel;
                assert(all[i + 1] == voxel);
            }
            if all.contains(voxel) {
                let i = choose|i: int| 0 <= i < all.len() && all[i] == voxel;
                if i > 0 {
                    assert(rest[i - 1] == voxel);
                }
            }
        }
    }
}

/// The walk over the voxels of a volume hands out the non-empty voxels
/// of the volume and nothing else.
pub proof fn lemma_solid_is_voxel_set(voxels: Voxels)
    ensures
        forall|voxel: ([u32; 3], u8)|
            voxels.solid().contains(voxel) <==> #[trigger] voxel_set(
                voxels.size,
                voxels.cells(),
            ).contains(voxel),
{
    assert forall|voxel: ([u32; 3], u8)|
        voxels.solid().contains(voxel) <==> #[trigger] voxel_set(
            voxels.size,
            voxels.cells(),
        ).contains(voxel) by {
        lemma_solid_from_contains(voxels.size, voxels.cells(), 0, voxel);
    }
}

/// Whether the cell `a` comes before the cell `b` in the order of the
/// format.
pub open spec fn comes_before(a: [u32; 3], b: [u32; 3]) -> bool {
    a[2] < b[2] || (a[2] == b[2] && (a[1] < b[1] || (a[1] == b[1] && a[0] < b[0])))
}

/// Inside a box, a cell has a lower place in the walk than another
/// exactly where it comes before the other.
pub proof fn lemma_rank_order(size: [u32; 3], a: [u32; 3], b: [u32; 3])
    requires
        inside(size, a),
        inside(size, b),
    ensures
        rank(size, format_order(), a) < rank(size, format_order(), b) <==> comes_before(a, b),
{
    let n = size[0] as int;
    let m = size[1] as int;
    let (a0, a1, a2) = (a[0] as int, a[1] as int, a[2] as int);
    let (b0, b1, b2) = (b[0] as int, b[1] as int, b[2] as int);
    assert(a2 < b2 ==> a0 + n * (a1 + m * a2) < b0 + n * (b1 + m * b2)) by (nonlinear_arith)
        requires
            0 <= a0 < n,
            0 <= a1 < m,
            0 <= a2,
            0 <= b0,
            0 <= b1,
            0 <= b2,
    ;
    assert(b2 < a2 ==> b0 + n * (b1 + m * b2) < a0 + n * (a1 + m * a2)) by (nonlinear_arith)
        requires
            0 <= b0 < n,
            0 <= b1 < m,
            0 <= b2,
            0 <= a0,
            0 <= a1,
            0 <= a2,
    ;
    assert(a2 == b2 && a1 < b1 ==> a0 + n * (a1 + m * a2) < b0 + n * (b1 + m * b2))
        by (nonlinear_arith)
        requires
            0 <= a0 < n,
            0 <= b0,
            0 <= m,
    ;
    assert(a2 == b2 && b1 < a1 ==> b0 + n * (b1 + m * b2) < a0 + n * (a1 + m * a2))
        by (nonlinear_arith)
        requires
            0 <= b0 < n,
            0 <= a0,
            0 <= m,
    ;
}

/// The cells of a part lie in the volume in the order in which they lie in
/// the part.
pub proof fn lemma_whole_place_grows(
    size: [u32; 3],
    max: int,
    part: (int, int, int),
    j: int,
    k: int,
)
    requires
        0 < max,
        is_part_index(size, max, part),
        0 <= j < k < volume(part_size(size, max, part)),
    ensures
        0 <= whole_place(size, max, part, j) < whole_place(size, max, part, k),
{
    let order = format_order();
    let extent = part_size(size, max, part);
    let origin = part_origin(max, part);
    let a = cell_at(extent, order, j);
    let b = cell_at(extent, order, k);
    lemma_rank_cell_at(extent, order, j);
    lemma_rank_cell_at(extent, order, k);
    lemma_rank_order(extent, a, b);
    lemma_part_fits(size, max, part);
    assert(inside(size, shifted(origin, a)));
    assert(inside(size, shifted(origin, b)));
    assert(comes_before(shifted(origin, a), shifted(origin, b)));
    lemma_rank_order(size, shifted(origin, a), shifted(origin, b));
    lemma_cell_at_rank(size, order, shifted(origin, a));
}

/// Up to where a part reaches, its cells lie among the cells of the
/// volume; from there on they lie behind them.
pub proof fn lemma_part_reach(
    size: [u32; 3],
    cells: nat,
    max: int,
    part: (int, int, int),
    from: nat,
)
    requires
        0 < max,
        is_part_index(size, max, part),
        from <= volume(part_size(size, max, part)),
    ensures
        from <= part_reach(size, cells, max, part, from) <= volume(part_size(size, max, part)),
        forall|j: int|
            from <= j < part_reach(size, cells, max, part, from) ==> #[trigger] whole_place(
                size,
                max,
                part,
                j,
            ) < cells,
        forall|j: int|
            part_reach(size, cells, max, part, from) <= j < volume(part_size(size, max, part))
                ==> #[trigger] whole_place(size, max, part, j) >= cells,
    decreases volume(part_size(size, max, part)) - from,
{
    let reach = part_reach(size, cells, max, part, from);
    if from < volume(part_size(size, max, part)) {
        if whole_place(size, max, part, from as int) >= cells {
            assert forall|j: int|
                reach <= j < volume(part_size(size, max, part)) implies #[trigger] whole_place(
                size,
                max,
                part,
                j,
            ) >= cells by {
                if from < j {
                    lemma_whole_place_grows(size, max, part, from as int, j);
                }
            }
        } else {
            lemma_part_reach(size, cells, max, part, from + 1);
        }
    }
}

/// A piece of an axis lies within the axis and is no longer than `max`.
pub proof fn lemma_piece(dim: u32, max: int, n: int)
    requires
        0 < max,
        0 <= n < pieces(dim, max),
    ensures
        0 <= piece_extent(dim, max, n) <= max,
        0 <= n * max,
        n * max + piece_extent(dim, max, n) <= dim,
{
    lemma_fundamental_div_mod(dim as int, max);
    lemma_mod_bound(dim as int, max);
    let whole = dim as int / max;
    assert(0 <= n * max && n * max + max <= whole * max + (if n == whole {
        max
    } else {
        0
    })) by (nonlinear_arith)
        requires
            0 < max,
            0 <= n <= whole,
    ;
    assert(max * whole == whole * max) by (nonlinear_arith);
}

/// A place on an axis lies in the piece with the number `at / max`, at
/// `at % max` from where that piece begins.
pub proof fn lemma_piece_of(dim: u32, max: int, at: int)
    requires
        0 < max,
        0 <= at < dim,
    ensures
        0 <= at / max < pieces(dim, max),
        0 <= at % max < piece_extent(dim, max, at / max),
        (at / max) * max + at % max == at,
{
    lemma_fundamental_div_mod(dim as int, max);
    lemma_fundamental_div_mod(at, max);
    lemma_mod_bound(dim as int, max);
    lemma_mod_bound(at, max);
    lemma_div_is_ordered(at, dim as int, max);
    lemma_div_pos_is_pos(at, max);
    assert(max * (at / max) == (at / max) * max) by (nonlinear_arith);
}

/// Each part is no longer than `max` along any axis and lies within the
/// volume.
pub proof fn lemma_part_fits(size: [u32; 3], max: int, part: (int, int, int))
    requires
        0 < max,
        is_part_index(size, max, part),
    ensures
        part_size(size, max, part)[0] <= max,
        part_size(size, max, part)[1] <= max,
        part_size(size, max, part)[2] <= max,
        part_origin(max, part)[0] + part_size(size, max, part)[0] <= size[0],
        part_origin(max, part)[1] + part_size(size, max, part)[1] <= size[1],
        part_origin(max, part)[2] + part_size(size, max, part)[2] <= size[2],
        part_origin(max, part)[0] == part.0 * max,
        part_origin(max, part)[1] == part.1 * max,
        part_origin(max, part)[2] == part.2 * max,
{
    lemma_piece(size[0], max, part.0);
    lemma_piece(size[1], max, part.1);
    lemma_piece(size[2], max, part.2);
}

/// The parts of a volume hold its non-empty voxels and nothing else: a
/// voxel of the volume lies in the part that `coordinate / max` names, and
/// each voxel of a part, moved by where the part begins, is a voxel of the
/// volume.
pub proof fn lemma_parts_cover(size: [u32; 3], cells: Seq<u8>, max: int)
    requires
        0 < max,
        cells.len() <= volume(size),
    ensures
        forall|voxel: ([u32; 3], u8)| #[trigger]
            voxel_set(size, cells).contains(voxel) ==> {
                let part = (voxel.0[0] as int / max, voxel.0[1] as int / max, voxel.0[2] as int
                    / max);
                is_part_index(size, max, part) && part_voxel_set(size, cells, max, part).contains(
                    voxel,
                )
            },
        forall|voxel: ([u32; 3], u8), part: (int, int, int)|
            is_part_index(size, max, part) && #[trigger] part_voxel_set(
                size,
                cells,
                max,
                part,
            ).contains(voxel) ==> voxel_set(size, cells).contains(voxel),
{
    let order = format_order();
    assert forall|voxel: ([u32; 3], u8)| #[trigger]
        voxel_set(size, cells).contains(voxel) implies {
        let part = (voxel.0[0] as int / max, voxel.0[1] as int / max, voxel.0[2] as int / max);
        is_part_index(size, max, part) && part_voxel_set(size, cells, max, part).contains(voxel)
    } by {
        let k = choose|k: int|
            0 <= k < cells.len() && k < volume(size) && cells[k] != 0 && voxel == (
                cell_at(size, order, k),
                #[trigger] cells[k],
            );
        let at = voxel.0;
        lemma_rank_cell_at(size, order, k);
        let part = (at[0] as int / max, at[1] as int / max, at[2] as int / max);
        lemma_piece_of(size[0], max, at[0] as int);
        lemma_piece_of(size[1], max, at[1] as int);
        lemma_piece_of(size[2], max, at[2] as int);
        lemma_part_fits(size, max, part);
        let local = [(at[0] as int % max) as u32, (at[1] as int % max) as u32, (at[2] as int
            % max) as u32];
        let extent = part_size(size, max, part);
        assert(inside(extent, local)) by {
            lemma_piece(size[0], max, part.0);
            lemma_piece(size[1], max, part.1);
            lemma_piece(size[2], max, part.2);
            assert(local[0] == at[0] as int % max);
            assert(local[1] == at[1] as int % max);
            assert(local[2] == at[2] as int % max);
            assert(extent[0] == piece_extent(size[0], max, part.0));
            assert(extent[1] == piece_extent(size[1], max, part.1));
            assert(extent[2] == piece_extent(size[2], max, part.2));
        }
        lemma_cell_at_rank(extent, order, local);
        let j = rank(extent, order, local);
        assert(shifted(part_origin(max, part), local) =~= at);
        assert(part_cell(size, cells, max, part, j) == cells[k]);
    }
    assert forall|voxel: ([u32; 3], u8), part: (int, int, int)|
        is_part_index(size, max, part) && #[trigger] part_voxel_set(
            size,
            cells,
            max,
            part,
        ).contains(voxel) implies voxel_set(size, cells).contains(voxel) by {
        let extent = part_size(size, max, part);
        let j = choose|j: int|
            0 <= j < volume(extent) && part_cell(size, cells, max, part, j) != 0 && voxel == (
                shifted(part_origin(max, part), cell_at(extent, order, j)),
                #[trigger] part_cell(size, cells, max, part, j),
            );
        let local = cell_at(extent, order, j);
        lemma_rank_cell_at(extent, order, j);
        lemma_part_fits(size, max, part);
        let at = shifted(part_origin(max, part), local);
        assert(inside(size, at));
        lemma_cell_at_rank(size, order, at);
        let k = rank(size, order, at);
        assert(cells[k] == part_cell(size, cells, max, part, j));
    }
}

/// What a volume is split into holds the non-empty voxels of the volume
/// and nothing else, and no part is longer than `max` along any axis.
pub proof fn lemma_split_reconstructs(parts: Seq<VoxelsPart>, voxels: Voxels, max: int)
    requires
        0 < max,
        is_oversized(voxels.size, max),
        is_split(parts, voxels.size, voxels.palette_index_runs@, max),
    ensures
        forall|n: int|
            0 <= n < parts.len() ==> (#[trigger] parts[n]).voxels.size[0] <= max
                && parts[n].voxels.size[1] <= max && parts[n].voxels.size[2] <= max,
        forall|voxel: ([u32; 3], u8)|
            voxel_set(voxels.size, voxels.cells()).contains(voxel) <==> exists|n: int|
                0 <= n < parts.len() && #[trigger] part_voxel_set(
                    voxels.size,
                    voxels.cells(),
                    max,
                    part_index(voxels.size, max, n),
                ).contains(voxel),
        forall|n: int|
            0 <= n < parts.len() ==> voxel_set(
                (#[trigger] parts[n]).voxels.size,
                parts[n].voxels.cells(),
            ) == Set::new(
                |local: ([u32; 3], u8)|
                    part_voxel_set(
                        voxels.size,
                        voxels.cells(),
                        max,
                        part_index(voxels.size, max, n),
                    ).contains((shifted(parts[n].relative_pos, local.0), local.1)) && inside(
                        parts[n].voxels.size,
                        local.0,
                    ),
            ),
{
    let size = voxels.size;
    let cells = voxels.cells();
    let order = format_order();
    lemma_parts_cover(size, cells, max);
    lemma_part_count(size, max);
    assert forall|n: int| 0 <= n < parts.len() implies is_part_index(
        size,
        max,
        #[trigger] part_index(size, max, n),
    ) by {
        lemma_part_number(size, max, n);
    }
    assert forall|n: int| 0 <= n < parts.len() implies (#[trigger] parts[n]).voxels.size[0] <= max
        && parts[n].voxels.size[1] <= max && parts[n].voxels.size[2] <= max by {
        lemma_part_fits(size, max, part_index(size, max, n));
    }
    assert forall|voxel: ([u32; 3], u8)|
        voxel_set(size, cells).contains(voxel) implies exists|n: int|
        0 <= n < parts.len() && #[trigger] part_voxel_set(
            size,
            cells,
            max,
            part_index(size, max, n),
        ).contains(voxel) by {
        let part = (voxel.0[0] as int / max, voxel.0[1] as int / max, voxel.0[2] as int / max);
        let n = lemma_part_numbered(size, max, part);
        assert(part_voxel_set(size, cells, max, part_index(size, max, n)).contains(voxel));
    }
    assert forall|n: int| 0 <= n < parts.len() implies voxel_set(
        (#[trigger] parts[n]).voxels.size,
        parts[n].voxels.cells(),
    ) == Set::new(
        |local: ([u32; 3], u8)|
            part_voxel_set(size, cells, max, part_index(size, max, n)).contains(
                (shifted(parts[n].relative_pos, local.0), local.1),
            ) && inside(parts[n].voxels.size, local.0),
    ) by {
        let part = part_index(size, max, n);
        let extent = part_size(size, max, part);
        let origin = part_origin(max, part);
        let piece = parts[n];
        assert(is_part(piece, size, cells, max, part));
        lemma_part_fits(size, max, part);
        let own = piece.voxels.cells();
        lemma_part_reach(size, cells.len(), max, part, 0);
        assert(own == part_cells(size, cells, max, part));
        let left = voxel_set(piece.voxels.size, own);
        let right = Set::new(
            |local: ([u32; 3], u8)|
                part_voxel_set(size, cells, max, part).contains(
                    (shifted(piece.relative_pos, local.0), local.1),
                ) && inside(piece.voxels.size, local.0),
        );
        assert forall|local: ([u32; 3], u8)| left.contains(local) implies right.contains(local) by {
            let j = choose|j: int|
                0 <= j < own.len() && j < volume(extent) && own[j] != 0 && local == (
                    cell_at(extent, order, j),
                    #[trigger] own[j],
                );
            lemma_rank_cell_at(extent, order, j);
            assert(part_cell(size, cells, max, part, j) == own[j]);
        }
        assert forall|local: ([u32; 3], u8)| right.contains(local) implies left.contains(local) by {
            let moved = (shifted(origin, local.0), local.1);
            let j = choose|j: int|
                0 <= j < volume(extent) && part_cell(size, cells, max, part, j) != 0 && moved == (
                    shifted(origin, cell_at(extent, order, j)),
                    #[trigger] part_cell(size, cells, max, part, j),
                );
            lemma_rank_cell_at(extent, order, j);
            assert(j < own.len()) by {
                if j >= own.len() {
                    assert(whole_place(size, max, part, j) >= cells.len());
                }
            }
            let other = cell_at(extent, order, j);
            assert(other =~= local.0) by {
                assert(shifted(origin, other)[0] == shifted(origin, local.0)[0]);
                assert(shifted(origin, other)[1] == shifted(origin, local.0)[1]);
                assert(shifted(origin, other)[2] == shifted(origin, local.0)[2]);
            }
            assert(own[j] == part_cell(size, cells, max, part, j));
        }
        assert(left =~= right);
    }
}

/// The number of parts is the product of the numbers of pieces, each at
/// least one.
pub proof fn lemma_part_count(size: [u32; 3], max: int)
    requires
        0 < max,
    ensures
        1 <= pieces(size[0], max),
        1 <= pieces(size[1], max),
        1 <= pieces(size[2], max),
        1 <= part_count(size, max),
{
    lemma_div_pos_is_pos(size[0] as int, max);
    lemma_div_pos_is_pos(size[1] as int, max);
    lemma_div_pos_is_pos(size[2] as int, max);
    let a = pieces(size[0], max);
    let b = pieces(size[1], max);
    let c = pieces(size[2], max);
    assert(1 <= a * b * c) by (nonlinear_arith)
        requires
            1 <= a,
            1 <= b,
            1 <= c,
    ;
}

/// The part with the number `n` is a part of the volume.
pub proof fn lemma_part_number(size: [u32; 3], max: int, n: int)
    requires
        0 < max,
        0 <= n < part_count(size, max),
    ensures
        is_part_index(size, max, part_index(size, max, n)),
{
    lemma_part_count(size, max);
    crate::grid::lemma_digits_of(
        pieces(size[0], max),
        pieces(size[1], max),
        pieces(size[2], max),
        n,
    );
}

/// Every part of the volume has a number.
pub proof fn lemma_part_numbered(size: [u32; 3], max: int, part: (int, int, int)) -> (n: int)
    requires
        0 < max,
        is_part_index(size, max, part),
    ensures
        0 <= n < part_count(size, max),
        part_index(size, max, n) == part,
{
    let a = pieces(size[0], max);
    let b = pieces(size[1], max);
    crate::grid::lemma_digits(a, b, pieces(size[2], max), part.0, part.1, part.2);
    part.0 + a * (part.1 + b * part.2)
}

/// Number of parts that a volume of the given size is split into, or
/// `None` where the machine cannot count them.
pub fn count_parts<const MAX: usize>(size: &[u32; 3]) -> (count: Option<usize>)
    requires
        0 < MAX,
    ensures
        match count {
            Some(n) => n == part_count(*size, MAX as int),
            None => part_count(*size, MAX as int) > usize::MAX,
        },
{
    let a = (size[0] as usize / MAX) as u128 + 1;
    let b = (size[1] as usize / MAX) as u128 + 1;
    let c = (size[2] as usize / MAX) as u128 + 1;
    proof {
        lemma_div_is_ordered_by_denominator(size[0] as int, 1, MAX as int);
        lemma_div_is_ordered_by_denominator(size[1] as int, 1, MAX as int);
        lemma_div_is_ordered_by_denominator(size[2] as int, 1, MAX as int);
        assert(a * b <= 0x1_0000_0000 * 0x1_0000_0000 && a * b * c <= 0x1_0000_0000
            * 0x1_0000_0000 * 0x1_0000_0000) by (nonlinear_arith)
            requires
                0 <= a <= 0x1_0000_0000,
                0 <= b <= 0x1_0000_0000,
                0 <= c <= 0x1_0000_0000,
        ;
    }
    let all = a * b * c;
    if all <= usize::MAX as u128 {
        Some(all as usize)
    } else {
        None
    }
}

/// Splits a volume that is longer than `MAX` along some axis into parts
/// that are not; any other volume comes back whole, as one part that
/// begins at the origin.
///
/// The parts come in the order of their numbers, with axis 0 varying
/// fastest.
pub fn split_voxels<const MAX: usize>(voxels: Voxels) -> (parts: Vec<VoxelsPart>)
    requires
        0 < MAX,
        is_oversized(voxels.size, MAX as int) ==> part_count(voxels.size, MAX as int)
            <= usize::MAX,
    ensures
        is_split(parts@, voxels.size, voxels.palette_index_runs@, MAX as int),
{
    let size = voxels.size;
    if !(size[0] as usize > MAX || size[1] as usize > MAX || size[2] as usize > MAX) {
        let whole = VoxelsPart { relative_pos: [0, 0, 0], voxels };
        return vec![whole];
    }
    let cells = voxels.to_cells();
    let count = count_parts::<MAX>(&size).unwrap();
    proof {
        lemma_part_count(size, MAX as int);
        let a = pieces(size[0], MAX as int);
        let b = pieces(size[1], MAX as int);
        let c = pieces(size[2], MAX as int);
        assert(a <= a * b * c && b <= a * b * c) by (nonlinear_arith)
            requires
                1 <= a,
                1 <= b,
                1 <= c,
        ;
    }
    let along_x = size[0] as usize / MAX + 1;
    let along_y = size[1] as usize / MAX + 1;
    let mut parts: Vec<VoxelsPart> = Vec::new();
    let mut n: usize = 0;
    while n < count
        invariant
            0 < MAX,
            n <= count,
            count == part_count(size, MAX as int),
            along_x == pieces(size[0], MAX as int),
            along_y == pieces(size[1], MAX as int),
            size == voxels.size,
            cells@ == voxels.cells(),
            parts@.len() == n,
            forall|m: int|
                0 <= m < n ==> is_part(
                    #[trigger] parts@[m],
                    size,
                    cells@,
                    MAX as int,
                    part_index(size, MAX as int, m),
                ),
        decreases count - n,
    {
        let ghost part = part_index(size, MAX as int, n as int);
        proof {
            lemma_part_number(size, MAX as int, n as int);
            lemma_part_fits(size, MAX as int, part);
            lemma_piece(size[0], MAX as int, part.0);
            lemma_piece(size[1], MAX as int, part.1);
            lemma_piece(size[2], MAX as int, part.2);
        }
        let px = n % along_x;
        let py = (n / along_x) % along_y;
        let pz = (n / along_x) / along_y;
        let origin = [(px * MAX) as u32, (py * MAX) as u32, (pz * MAX) as u32];
        let extent = [
            piece_length::<MAX>(size[0], px),
            piece_length::<MAX>(size[1], py),
            piece_length::<MAX>(size[2], pz),
        ];
        assert(origin =~= part_origin(MAX as int, part));
        assert(extent =~= part_size(size, MAX as int, part));
        let total = crate::voxels::box_volume(&extent);
        let mut bytes: Vec<u8> = Vec::new();
        let mut walk = BoxIter::new(extent, [0, 1, 2]);
        let mut j: u128 = 0;
        let mut within = true;
        while within && j < total
            invariant
                0 < MAX,
                j <= total,
                total == volume(extent),
                walk.size() == extent,
                walk.order() == format_order(),
                within ==> walk.position() == j,
                bytes@.len() == j,
                extent == part_size(size, MAX as int, part),
                origin == part_origin(MAX as int, part),
                is_part_index(size, MAX as int, part),
                part_reach(size, cells@.len(), MAX as int, part, 0) == part_reach(
                    size,
                    cells@.len(),
                    MAX as int,
                    part,
                    j as nat,
                ),
                !within ==> part_reach(size, cells@.len(), MAX as int, part, j as nat) == j,
                forall|k: int|
                    0 <= k < j ==> bytes@[k] == part_cell(size, cells@, MAX as int, part, k),
            decreases total - j + if within {
                1int
            } else {
                0int
            },
        {
            let local = walk.next().unwrap();
            proof {
                lemma_rank_cell_at(extent, format_order(), j as int);
                lemma_part_fits(size, MAX as int, part);
                lemma_cell_at_rank(size, format_order(), shifted(origin, local));
            }
            let x = (origin[0] + local[0]) as u128;
            let y = (origin[1] + local[1]) as u128;
            let z = (origin[2] + local[2]) as u128;
            let width = size[0] as u128;
            let depth = size[1] as u128;
            assert(y + depth * z <= 0xffff_ffff + 0xffff_ffff * 0xffff_ffff && width * (y + depth
                * z) <= 0xffff_ffff * (0xffff_ffff + 0xffff_ffff * 0xffff_ffff))
                by (nonlinear_arith)
                requires
                    0 <= y <= 0xffff_ffff,
                    0 <= z <= 0xffff_ffff,
                    0 <= depth <= 0xffff_ffff,
                    0 <= width <= 0xffff_ffff,
            ;
            let whole = x + width * (y + depth * z);
            assert(whole == whole_place(size, MAX as int, part, j as int));
            if whole < cells.len() as u128 {
                bytes.push(cells[whole as usize]);
                j = j + 1;
            } else {
                within = false;
            }
        }
        let runs = run_length_encode(bytes.as_slice());
        assert(bytes@ =~= part_cells(size, cells@, MAX as int, part));
        parts.push(
            VoxelsPart {
                relative_pos: origin,
                voxels: Voxels { size: extent, palette_index_runs: runs },
            },
        );
        n = n + 1;
    }
    parts
}

/// Length of piece `n` of an axis of length `dim`.
fn piece_length<const MAX: usize>(dim: u32, n: usize) -> (length: u32)
    requires
        0 < MAX,
        0 <= n < pieces(dim, MAX as int),
    ensures
        length == piece_extent(dim, MAX as int, n as int),
{
    proof {
        lemma_piece(dim, MAX as int, n as int);
    }
    if n == dim as usize / MAX {
        (dim as usize % MAX) as u32
    } else {
        MAX as u32
    }
}

} // verus!
