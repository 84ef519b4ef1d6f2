//! Voxel volumes: a box size and a run-length stream of palette indices.
//!
//! The stream is a sequence of byte pairs. The first byte of a pair is a
//! run length minus one, the second the palette index that the run repeats.
//! Laid out run after run, the stream gives one palette index for each cell
//! of the box, in the axis order of the format. Palette index 0 stands for
//! an empty cell.

use crate::grid::{cell_at, format_order, volume, BoxIter};
use crate::parser::{at_field, end_of, failed, field, value_of};
use crate::parser::{lemma_reads_bytes, lemma_reads_u32, lemma_reads_u32x3, lemma_same_later};
use crate::parser::{spec_bytes, spec_u32, spec_u32x3};
use crate::parser::{Decode, Failure, ParseError, Parser};
use vstd::prelude::*;

verus! {

/// A voxel volume.
#[derive(Clone, Debug, Hash)]
pub struct Voxels {
    pub size: [u32; 3],
    /// Pairs of (run length - 1, palette index).
    pub palette_index_runs: Vec<u8>,
}

/// The cells that one pair of a stream stands for.
pub open spec fn run(length_minus_one: u8, palette_index: u8) -> Seq<u8> {
    Seq::new(length_minus_one as nat + 1, |i: int| palette_index)
}

/// The cells that the first `pairs` pairs of a stream stand for.
pub open spec fn expand_pairs(runs: Seq<u8>, pairs: nat) -> Seq<u8>
    decreases pairs,
{
    if pairs == 0 {
        Seq::empty()
    } else {
        expand_pairs(runs, (pairs - 1) as nat) + run(runs[2 * pairs - 2], runs[2 * pairs - 1])
    }
}

/// The cells that a stream stands for. A last byte without a partner
/// stands for nothing.
pub open spec fn expand(runs: Seq<u8>) -> Seq<u8> {
    expand_pairs(runs, runs.len() / 2)
}

/// Whether a stream uses as few pairs as its cells allow: it is made of
/// whole pairs, and a run is followed by a run of the same palette index
/// only where it has the greatest length that a pair can hold.
pub open spec fn is_minimal(runs: Seq<u8>) -> bool {
    &&& runs.len() % 2 == 0
    &&& forall|p: int|
        0 <= p && 2 * p + 3 < runs.len() ==> #[trigger] runs[2 * p + 1] != runs[2 * p + 3]
            || runs[2 * p] == 255
}

/// The non-empty cells among `cells[from..]`, each with its coordinates in
/// a box of the given size.
pub open spec fn solid_from(size: [u32; 3], cells: Seq<u8>, from: int) -> Seq<([u32; 3], u8)>
    decreases cells.len() - from,
{
    if from < 0 || from >= cells.len() {
        Seq::empty()
    } else if cells[from] == 0 {
        solid_from(size, cells, from + 1)
    } else {
        seq![(cell_at(size, format_order(), from), cells[from])] + solid_from(
            size,
            cells,
            from + 1,
        )
    }
}

/// The cells of a stream that fall into a box: as many cells as the box
/// has, or all of them where the stream is too short.
pub open spec fn cells_in_box(size: [u32; 3], runs: Seq<u8>) -> Seq<u8> {
    let cells = expand(runs);
    if cells.len() <= volume(size) {
        cells
    } else {
        cells.take(volume(size) as int)
    }
}

/// The first `pairs` pairs of a stream stand for the first cells of what
/// more pairs stand for.
pub proof fn lemma_expand_pairs_prefix(runs: Seq<u8>, fewer: nat, more: nat)
    requires
        fewer <= more,
    ensures
        expand_pairs(runs, fewer).len() <= expand_pairs(runs, more).len(),
        expand_pairs(runs, more).take(expand_pairs(runs, fewer).len() as int) == expand_pairs(
            runs,
            fewer,
        ),
    decreases more,
{
    if fewer < more {
        lemma_expand_pairs_prefix(runs, fewer, (more - 1) as nat);
        let shorter = expand_pairs(runs, (more - 1) as nat);
        let first = expand_pairs(runs, fewer);
        assert(expand_pairs(runs, more).take(first.len() as int) =~= shorter.take(
            first.len() as int,
        ));
    } else {
        assert(expand_pairs(runs, more).take(expand_pairs(runs, fewer).len() as int)
            =~= expand_pairs(runs, fewer));
    }
}

/// Where the cells of pair `pair` lie among the cells of the whole stream.
pub proof fn lemma_expand_at(runs: Seq<u8>, pair: nat, within: int)
    requires
        2 * pair + 1 < runs.len(),
        0 <= within <= runs[2 * pair as int],
    ensures
        expand_pairs(runs, pair).len() + within < expand(runs).len(),
        expand(runs)[expand_pairs(runs, pair).len() + within] == runs[2 * pair as int + 1],
{
    let before = expand_pairs(runs, pair);
    let with = expand_pairs(runs, pair + 1);
    assert(with == before + run(runs[2 * pair as int], runs[2 * pair as int + 1]));
    lemma_expand_pairs_prefix(runs, pair + 1, runs.len() / 2);
    assert(expand(runs)[before.len() + within] == expand(runs).take(with.len() as int)[before.len()
        + within]);
}

/// Adding a pair to a stream of whole pairs adds its run to the cells.
pub proof fn lemma_expand_push(runs: Seq<u8>, length_minus_one: u8, palette_index: u8)
    requires
        runs.len() % 2 == 0,
    ensures
        expand(runs.push(length_minus_one).push(palette_index)) == expand(runs) + run(
            length_minus_one,
            palette_index,
        ),
{
    let longer = runs.push(length_minus_one).push(palette_index);
    lemma_expand_pairs_same(runs, longer, runs.len() / 2);
    assert(longer.len() / 2 == runs.len() / 2 + 1);
}

/// Two streams that agree on their first `pairs` pairs stand for the same
/// cells as far as those pairs go.
pub proof fn lemma_expand_pairs_same(a: Seq<u8>, b: Seq<u8>, pairs: nat)
    requires
        2 * pairs <= a.len(),
        2 * pairs <= b.len(),
        forall|i: int| 0 <= i < 2 * pairs ==> a[i] == b[i],
    ensures
        expand_pairs(a, pairs) == expand_pairs(b, pairs),
    decreases pairs,
{
    if pairs > 0 {
        lemma_expand_pairs_same(a, b, (pairs - 1) as nat);
    }
}

/// The cells of a stream are those of its first pair and then those of
/// the stream behind its first pair.
pub proof fn lemma_expand_front(runs: Seq<u8>)
    requires
        runs.len() >= 2,
    ensures
        expand(runs) == run(runs[0], runs[1]) + expand(runs.skip(2)),
{
    lemma_expand_pairs_front(runs, runs.len() / 2);
    assert(runs.skip(2).len() / 2 == runs.len() / 2 - 1);
}

/// The cells of the first pairs of a stream are those of its first pair
/// and then those of the pairs behind it.
proof fn lemma_expand_pairs_front(runs: Seq<u8>, pairs: nat)
    requires
        1 <= pairs,
        2 * pairs <= runs.len(),
    ensures
        expand_pairs(runs, pairs) == run(runs[0], runs[1]) + expand_pairs(
            runs.skip(2),
            (pairs - 1) as nat,
        ),
    decreases pairs,
{
    let rest = runs.skip(2);
    if pairs == 1 {
        reveal_with_fuel(expand_pairs, 2);
        assert(expand_pairs(runs, 1) =~= Seq::<u8>::empty() + run(runs[0], runs[1]));
        assert(expand_pairs(runs, pairs) =~= run(runs[0], runs[1]) + expand_pairs(rest, 0));
    } else {
        lemma_expand_pairs_front(runs, (pairs - 1) as nat);
        assert(rest[2 * (pairs - 1) - 2] == runs[2 * pairs - 2]);
        assert(rest[2 * (pairs - 1) - 1] == runs[2 * pairs - 1]);
        assert(expand_pairs(runs, pairs) =~= run(runs[0], runs[1]) + expand_pairs(
            rest,
            (pairs - 1) as nat,
        ));
    }
}

/// A stream of whole pairs that is not empty stands for cells, the first
/// of which has the palette index of its first pair.
pub proof fn lemma_expand_first(runs: Seq<u8>)
    requires
        runs.len() >= 2,
    ensures
        expand(runs).len() >= runs[0] + 1,
        forall|k: int| 0 <= k <= runs[0] ==> expand(runs)[k] == runs[1],
{
    lemma_expand_front(runs);
}

/// The cells of a sequence determine the stream that stands for them with
/// as few pairs as they allow: two such streams for the same cells are
/// the same.
pub proof fn lemma_minimal_is_unique(a: Seq<u8>, b: Seq<u8>)
    requires
        is_minimal(a),
        is_minimal(b),
        expand(a) == expand(b),
    ensures
        a == b,
    decreases a.len(),
{
    if a.len() == 0 || b.len() == 0 {
        if a.len() >= 2 {
            lemma_expand_first(a);
        }
        if b.len() >= 2 {
            lemma_expand_first(b);
        }
        assert(a =~= b);
    } else {
        lemma_expand_front(a);
        lemma_expand_front(b);
        lemma_expand_first(a);
        lemma_expand_first(b);
        let a_rest = a.skip(2);
        let b_rest = b.skip(2);
        assert(a[1] == b[1]) by {
            assert(expand(a)[0] == a[1]);
            assert(expand(b)[0] == b[1]);
        }
        lemma_first_run(a, b);
        lemma_first_run(b, a);
        assert(run(a[0], a[1]) == run(b[0], b[1]));
        assert(expand(a_rest) =~= expand(a).skip(a[0] + 1));
        assert(expand(b_rest) =~= expand(b).skip(b[0] + 1));
        assert(is_minimal(a_rest)) by {
            assert forall|p: int| 0 <= p && 2 * p + 3 < a_rest.len() implies (
            #[trigger] a_rest[2 * p + 1]) != a_rest[2 * p + 3] || a_rest[2 * p] == 255 by {
                assert(a[2 * (p + 1) + 1] != a[2 * (p + 1) + 3] || a[2 * (p + 1)] == 255);
            }
        }
        assert(is_minimal(b_rest)) by {
            assert forall|p: int| 0 <= p && 2 * p + 3 < b_rest.len() implies (
            #[trigger] b_rest[2 * p + 1]) != b_rest[2 * p + 3] || b_rest[2 * p] == 255 by {
                assert(b[2 * (p + 1) + 1] != b[2 * (p + 1) + 3] || b[2 * (p + 1)] == 255);
            }
        }
        lemma_minimal_is_unique(a_rest, b_rest);
        assert(a =~= b) by {
            assert(a.len() == b.len());
            assert forall|i: int| 0 <= i < a.len() implies a[i] == b[i] by {
                if i >= 2 {
                    assert(a[i] == a_rest[i - 2]);
                    assert(b[i] == b_rest[i - 2]);
                }
            }
        }
    }
}

/// Of two streams that stand for the same cells, one that is minimal has
/// a first run at least as long as the first run of the other: a shorter
/// run would be followed by a run of the same palette index.
proof fn lemma_first_run(minimal: Seq<u8>, other: Seq<u8>)
    requires
        is_minimal(minimal),
        minimal.len() >= 2,
        other.len() >= 2,
        expand(minimal) == expand(other),
    ensures
        minimal[0] >= other[0],
{
    if minimal[0] < other[0] {
        lemma_expand_front(minimal);
        lemma_expand_first(minimal);
        lemma_expand_first(other);
        let rest = minimal.skip(2);
        let next = minimal[0] + 1;
        assert(expand(minimal)[0] == minimal[1]);
        assert(expand(other)[0] == other[1]);
        assert(expand(minimal)[next] == other[1]);
        assert(expand(rest).len() > 0);
        assert(rest.len() >= 2) by {
            if rest.len() < 2 {
                assert(expand(rest) =~= Seq::<u8>::empty());
            }
        }
        lemma_expand_first(rest);
        assert(expand(minimal)[next] == expand(rest)[0]);
        assert(rest[1] == minimal[3]);
        let first = 0int;
        assert(minimal[2 * first + 1] != minimal[2 * first + 3] || minimal[2 * first] == 255);
    }
}

/// Encoding the cells of a volume anew keeps its voxels: a stream that
/// stands for the cells of a volume gives the same cells to the box and
/// the same non-empty voxels, in the same order.
pub proof fn lemma_reencoding_keeps_voxels(voxels: Voxels, encoded: Seq<u8>)
    requires
        expand(encoded) == voxels.cells(),
    ensures
        cells_in_box(voxels.size, encoded) == voxels.cells(),
        solid_from(voxels.size, cells_in_box(voxels.size, encoded), 0) == voxels.solid(),
        solid_from(voxels.size, cells_in_box(voxels.size, encoded), 0).to_multiset()
            == voxels.solid().to_multiset(),
{
}

/// The streams that stand for a run of one palette index that is as long
/// as a pair can hold, and for a run that is longer by one cell.
pub proof fn lemma_long_runs(encoded: Seq<u8>, palette_index: u8)
    requires
        is_minimal(encoded),
    ensures
        expand(encoded) == Seq::new(256, |i: int| palette_index) ==> encoded == seq![
            255u8,
            palette_index,
        ],
        expand(encoded) == Seq::new(257, |i: int| palette_index) ==> encoded == seq![
            255u8,
            palette_index,
            0u8,
            palette_index,
        ],
        expand(encoded).len() == 0 ==> encoded.len() == 0,
{
    let one = seq![255u8, palette_index];
    let two = seq![255u8, palette_index, 0u8, palette_index];
    assert(expand(one) =~= Seq::new(256, |i: int| palette_index)) by {
        lemma_expand_front(one);
        assert(expand(one.skip(2)) =~= Seq::<u8>::empty());
    }
    assert(expand(two) =~= Seq::new(257, |i: int| palette_index)) by {
        lemma_expand_front(two);
        lemma_expand_front(two.skip(2));
        assert(expand(two.skip(2).skip(2)) =~= Seq::<u8>::empty());
    }
    assert(is_minimal(one));
    assert(is_minimal(two)) by {
        assert forall|p: int| 0 <= p && 2 * p + 3 < two.len() implies (#[trigger] two[2 * p + 1])
            != two[2 * p + 3] || two[2 * p] == 255 by {
            assert(p == 0);
        }
    }
    if expand(encoded) == Seq::new(256, |i: int| palette_index) {
        lemma_minimal_is_unique(encoded, one);
    }
    if expand(encoded) == Seq::new(257, |i: int| palette_index) {
        lemma_minimal_is_unique(encoded, two);
    }
    if expand(encoded).len() == 0 && encoded.len() >= 2 {
        lemma_expand_first(encoded);
    }
}

impl Voxels {
    /// The palette index of each cell that the stream gives to the box, in
    /// the order of the format.
    pub open spec fn cells(&self) -> Seq<u8> {
        cells_in_box(self.size, self.palette_index_runs@)
    }

    /// The non-empty voxels of the volume with their coordinates, in the
    /// order of the format.
    pub open spec fn solid(&self) -> Seq<([u32; 3], u8)> {
        solid_from(self.size, self.cells(), 0)
    }

    /// Whether the stream gives each cell of the box a palette index and
    /// nothing more.
    pub open spec fn is_complete(&self) -> bool {
        expand(self.palette_index_runs@).len() == volume(self.size)
    }

    /// Whether the stream gives each cell of the box a palette index and
    /// nothing more.
    pub fn has_all_cells(&self) -> (complete: bool)
        ensures
            complete == self.is_complete(),
    {
        let runs = &self.palette_index_runs;
        let pairs = runs.len() / 2;
        let room: u128 = box_volume(&self.size);
        let mut cells: u128 = 0;
        let mut pair: usize = 0;
        while pair < pairs
            invariant
                pairs == runs@.len() / 2,
                runs@.len() <= usize::MAX,
                pair <= pairs,
                cells == expand_pairs(runs@, pair as nat).len(),
                cells <= 256 * pair,
            decreases pairs - pair,
        {
            cells = cells + runs[2 * pair] as u128 + 1;
            pair = pair + 1;
        }
        cells == room
    }

    /// A volume with the same size and stream.
    pub fn duplicate(&self) -> (copy: Voxels)
        ensures
            copy@ == self@,
    {
        Voxels {
            size: self.size,
            palette_index_runs: vstd::slice::slice_to_vec(self.palette_index_runs.as_slice()),
        }
    }

    /// A walk over the non-empty voxels of the volume.
    pub fn iter(&self) -> (voxels: VoxelIter<'_>)
        ensures
            voxels.remaining() == self.solid(),
    {
        VoxelIter::new_from_parts(&self.size, self.palette_index_runs.as_slice())
    }

    /// The palette index of each cell that the stream gives to the box.
    pub fn to_cells(&self) -> (cells: Vec<u8>)
        ensures
            cells@ == self.cells(),
    {
        let runs = &self.palette_index_runs;
        let pairs = runs.len() / 2;
        let room: u128 = box_volume(&self.size);
        let mut cells: Vec<u8> = Vec::new();
        let mut pair: usize = 0;
        while pair < pairs && (cells.len() as u128) < room
            invariant
                pairs == runs@.len() / 2,
                runs@.len() <= usize::MAX,
                pair <= pairs,
                room == volume(self.size),
                cells@.len() <= room,
                cells@.len() < room ==> cells@ == expand_pairs(runs@, pair as nat),
                cells@.len() == room ==> expand_pairs(runs@, pair as nat).len() >= room && cells@
                    == expand_pairs(runs@, pair as nat).take(room as int),
            decreases pairs - pair,
        {
            let length_minus_one = runs[2 * pair];
            let palette_index = runs[2 * pair + 1];
            let ghost before = cells@;
            let ghost longer = expand_pairs(runs@, (pair + 1) as nat);
            assert(longer == before + run(length_minus_one, palette_index));
            let mut within: u16 = 0;
            while within <= length_minus_one as u16 && (cells.len() as u128) < room
                invariant
                    within <= length_minus_one as u16 + 1,
                    cells@.len() <= room,
                    cells@.len() == before.len() + within,
                    longer == before + run(length_minus_one, palette_index),
                    cells@ == longer.take(before.len() + within),
                decreases length_minus_one as u16 + 1 - within,
            {
                cells.push(palette_index);
                within = within + 1;
                assert(cells@ =~= longer.take(before.len() + within));
            }
            pair = pair + 1;
            proof {
                if cells@.len() < room {
                    assert(cells@ =~= longer);
                }
            }
        }
        proof {
            lemma_expand_pairs_prefix(runs@, pair as nat, pairs as nat);
            let whole = expand(runs@);
            let part = expand_pairs(runs@, pair as nat);
            if cells@.len() < room {
                assert(pair == pairs);
            } else {
                assert(cells@ =~= whole.take(room as int)) by {
                    assert(whole.take(part.len() as int) == part);
                    assert forall|i: int| 0 <= i < room implies cells@[i] == whole[i] by {
                        assert(part[i] == whole.take(part.len() as int)[i]);
                    }
                }
            }
        }
        cells
    }
}

/// Number of cells of a box of the given size.
pub fn box_volume(size: &[u32; 3]) -> (cells: u128)
    ensures
        cells == volume(*size),
{
    let x = size[0] as u128;
    let y = size[1] as u128;
    let z = size[2] as u128;
    assert(x * y <= 0xffff_ffff * 0xffff_ffff && x * y * z <= 0xffff_ffff * 0xffff_ffff
        * 0xffff_ffff) by (nonlinear_arith)
        requires
            0 <= x <= 0xffff_ffff,
            0 <= y <= 0xffff_ffff,
            0 <= z <= 0xffff_ffff,
    ;
    x * y * z
}

/// A walk over the non-empty voxels of a volume, in the order of the
/// format.
pub struct VoxelIter<'a> {
    cells: BoxIter,
    runs: &'a [u8],
    /// Index of the pair that the next cell belongs to.
    pair: usize,
    /// Number of cells of that pair that the walk has passed.
    within: u16,
}

impl<'a> VoxelIter<'a> {
    #[verifier::type_invariant]
    spec fn well_formed(self) -> bool {
        &&& self.cells.order() == format_order()
        &&& self.pair <= self.runs@.len() / 2
        &&& self.pair < self.runs@.len() / 2 ==> self.within <= self.runs@[2 * self.pair]
        &&& self.pair == self.runs@.len() / 2 ==> self.within == 0
        &&& self.cells.position() == expand_pairs(self.runs@, self.pair as nat).len()
            + self.within
    }

    /// The voxels that the walk has yet to hand out.
    pub closed spec fn remaining(self) -> Seq<([u32; 3], u8)> {
        solid_from(
            self.cells.size(),
            cells_in_box(self.cells.size(), self.runs@),
            self.cells.position(),
        )
    }

    /// A walk over the voxels that the stream `compressed_palette_indices`
    /// gives to a box of the given size.
    pub fn new_from_parts(size: &'a [u32; 3], compressed_palette_indices: &'a [u8]) -> (voxels:
        VoxelIter<'a>)
        ensures
            voxels.remaining() == solid_from(
                *size,
                cells_in_box(*size, compressed_palette_indices@),
                0,
            ),
    {
        VoxelIter {
            cells: BoxIter::new(*size, [0, 1, 2]),
            runs: compressed_palette_indices,
            pair: 0,
            within: 0,
        }
    }

    /// The next non-empty voxel: its coordinates and its palette index.
    /// `None` when the walk has reached the end of the box or of the stream.
    pub fn next(&mut self) -> (voxel: Option<([u32; 3], u8)>)
        ensures
            old(self).remaining().len() == 0 ==> voxel is None && final(self).remaining().len()
                == 0,
            old(self).remaining().len() > 0 ==> voxel == Some(old(self).remaining()[0])
                && final(self).remaining() == old(self).remaining().skip(1),
    {
        proof {
            use_type_invariant(&*self);
        }
        let runs = self.runs;
        let mut walk = self.cells;
        let mut pair = self.pair;
        let mut within = self.within;
        let ghost size = walk.size();
        let ghost cells = cells_in_box(size, runs@);
        loop
            invariant
                walk.size() == size,
                walk.order() == format_order(),
                cells == cells_in_box(size, runs@),
                pair <= runs@.len() / 2,
                pair < runs@.len() / 2 ==> within <= runs@[2 * pair],
                pair == runs@.len() / 2 ==> within == 0,
                walk.position() == expand_pairs(runs@, pair as nat).len() + within,
                runs == old(self).runs,
                solid_from(size, cells, walk.position()) == old(self).remaining(),
            decreases volume(size) - walk.position(),
        {
            if pair >= runs.len() / 2 {
                *self = VoxelIter { cells: walk, runs, pair, within };
                return None;
            }
            let ghost at = walk.position();
            match walk.next() {
                None => {
                    *self = VoxelIter { cells: walk, runs, pair, within };
                    return None;
                },
                Some(coordinates) => {
                    let palette_index = runs[2 * pair + 1];
                    proof {
                        lemma_expand_at(runs@, pair as nat, within as int);
                        assert(cells[at] == palette_index);
                    }
                    if within < runs[2 * pair] as u16 {
                        within = within + 1;
                    } else {
                        assert(expand_pairs(runs@, (pair + 1) as nat) == expand_pairs(
                            runs@,
                            pair as nat,
                        ) + run(runs@[2 * pair as int], runs@[2 * pair + 1]));
                        pair = pair + 1;
                        within = 0;
                    }
                    if palette_index != 0 {
                        proof {
                            let rest = solid_from(size, cells, at + 1);
                            assert((seq![(coordinates, palette_index)] + rest).skip(1) =~= rest);
                        }
                        *self = VoxelIter { cells: walk, runs, pair, within };
                        return Some((coordinates, palette_index));
                    }
                },
            }
        }
    }
}

/// The shortest stream that stands for the cells `bytes`.
///
/// A run of more than 256 equal cells takes several pairs, all but the last
/// of the greatest length; an empty sequence of cells gives an empty stream.
pub fn run_length_encode(bytes: &[u8]) -> (encoded: Vec<u8>)
    ensures
        expand(encoded@) == bytes@,
        is_minimal(encoded@),
{
    let mut encoded: Vec<u8> = Vec::new();
    if bytes.len() == 0 {
        assert(expand(encoded@) =~= bytes@);
        return encoded;
    }
    let mut n: u8 = 0;
    let mut old: u8 = bytes[0];
    let mut i: usize = 1;
    assert(expand(encoded@) + run(n, old) =~= bytes@.take(1));
    while i < bytes.len()
        invariant
            1 <= i <= bytes.len(),
            is_minimal(encoded@),
            expand(encoded@) + run(n, old) == bytes@.take(i as int),
            encoded@.len() >= 2 ==> encoded@[encoded@.len() - 1] != old || encoded@[encoded@.len()
                - 2] == 255,
        decreases bytes.len() - i,
    {
        let value = bytes[i];
        let ghost before = encoded@;
        let ghost seen = bytes@.take(i as int);
        if old == value && n < 255 {
            n = n + 1;
            assert(expand(before) + run(n, old) =~= bytes@.take(i + 1)) by {
                assert(bytes@.take(i + 1) =~= seen.push(value));
                assert(run(n, old) =~= run((n - 1) as u8, old).push(value));
            }
        } else {
            encoded.push(n);
            encoded.push(old);
            proof {
                lemma_expand_push(before, n, old);
                assert(bytes@.take(i + 1) =~= seen + run(0, value));
                assert(is_minimal(encoded@)) by {
                    assert forall|p: int| 0 <= p && 2 * p + 3 < encoded@.len() implies (
                    #[trigger] encoded@[2 * p + 1]) != encoded@[2 * p + 3] || encoded@[2 * p]
                        == 255 by {
                        if 2 * p + 3 < before.len() {
                            assert(before[2 * p + 1] != before[2 * p + 3] || before[2 * p] == 255);
                        }
                    }
                }
            }
            n = 0;
            old = value;
        }
        i = i + 1;
    }
    let ghost before = encoded@;
    encoded.push(n);
    encoded.push(old);
    proof {
        lemma_expand_push(before, n, old);
        assert(bytes@.take(bytes@.len() as int) =~= bytes@);
        assert(is_minimal(encoded@)) by {
            assert forall|p: int| 0 <= p && 2 * p + 3 < encoded@.len() implies (
            #[trigger] encoded@[2 * p + 1]) != encoded@[2 * p + 3] || encoded@[2 * p] == 255 by {
                if 2 * p + 3 < before.len() {
                    assert(before[2 * p + 1] != before[2 * p + 3] || before[2 * p] == 255);
                }
            }
        }
    }
    encoded
}

/// What a volume holds.
pub struct VoxelsView {
    pub size: [u32; 3],
    pub palette_index_runs: Seq<u8>,
}

impl View for Voxels {
    type V = VoxelsView;

    open spec fn view(&self) -> VoxelsView {
        VoxelsView { size: self.size, palette_index_runs: self.palette_index_runs@ }
    }
}

/// A box has no cells exactly where one of its sides has length zero.
pub proof fn lemma_empty_box(size: [u32; 3])
    ensures
        volume(size) == 0 <==> size[0] == 0 || size[1] == 0 || size[2] == 0,
{
    let x = size[0] as int;
    let y = size[1] as int;
    let z = size[2] as int;
    assert(x * y * z == 0 <==> x == 0 || y == 0 || z == 0) by (nonlinear_arith)
        requires
            0 <= x,
            0 <= y,
            0 <= z,
    ;
}

impl Decode for Voxels {
    /// The three sizes; then, unless the box has no cells, the length of
    /// the stream in four bytes and the stream.
    open spec fn spec_parse(bytes: Seq<u8>, at: int) -> Result<(VoxelsView, int), Failure> {
        let size = field(spec_u32x3(bytes, at), "size");
        let length = field(spec_u32(bytes, end_of(size)), "palette_index_runs");
        let runs = field(
            spec_bytes(bytes, end_of(length), value_of(length) as nat),
            "palette_index_runs",
        );
        if size is Err {
            failed(size)
        } else if volume(value_of(size)) == 0 {
            Ok(
                (
                    VoxelsView { size: value_of(size), palette_index_runs: Seq::empty() },
                    end_of(size),
                ),
            )
        } else if length is Err {
            failed(length)
        } else if runs is Err {
            failed(runs)
        } else {
            Ok(
                (
                    VoxelsView { size: value_of(size), palette_index_runs: value_of(runs) },
                    end_of(runs),
                ),
            )
        }
    }

    fn parse(parser: &mut Parser) -> (got: Result<Voxels, ParseError>) {
        let size = at_field(parser.read_u32x3(), "size")?;
        proof {
            lemma_empty_box(size);
        }
        if size[0] == 0 || size[1] == 0 || size[2] == 0 {
            return Ok(Voxels { size, palette_index_runs: Vec::new() });
        }
        let n = at_field(parser.read_u32(), "palette_index_runs")?;
        let palette_index_runs = at_field(parser.read_bytes(n as usize), "palette_index_runs")?;
        Ok(Voxels { size, palette_index_runs })
    }

    proof fn lemma_reads_ahead(a: Seq<u8>, b: Seq<u8>, at: int) {
        lemma_reads_u32x3(a, b, at);
        let size = field(spec_u32x3(a, at), "size");
        if size is Ok {
            lemma_same_later(a, b, at, end_of(size));
            lemma_reads_u32(a, b, end_of(size));
            let length = field(spec_u32(a, end_of(size)), "palette_index_runs");
            if length is Ok {
                lemma_same_later(a, b, at, end_of(length));
                lemma_reads_bytes(a, b, end_of(length), value_of(length) as nat);
            }
        }
    }
}

} // verus!
