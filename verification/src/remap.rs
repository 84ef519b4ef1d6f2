//! Rearranging the materials of a palette so that each sits in the index
//! range of its kind.
//!
//! The engine that reads the exported palettes tells the kind of a material
//! from its palette index. A scene may hold a material at an index outside
//! the range of its kind; the remapper moves such materials into their
//! ranges and reports where each palette index went.
//!
//! Slots are visited in three tiers: first those whose material has to
//! stay (not replaceable), then those with a replaceable material of some
//! kind, last those with a replaceable material of kind `Absent`. Within a
//! tier the slots are visited by ascending index.

use crate::material::{material_kind_for_index, range_for_material_kind, Material, MaterialKind};
use crate::material::lemma_reserved_for_owns;
use vstd::prelude::*;

verus! {

/// The outcome of remapping a palette.
#[derive(Debug)]
pub enum PaletteMapping<'a> {
    /// Every material already sits where it may; the palette is used as it
    /// is.
    Original(&'a [Material; 256]),
    /// The rearranged materials, and for each palette index of the scene
    /// the index that its material has now.
    Remapped(Box<([Material; 256], [u8; 256])>),
}

impl<'a> PaletteMapping<'a> {
    /// The materials of the palette after remapping.
    pub fn materials_as_ref(&self) -> (materials: &[Material; 256])
        ensures
            match self {
                PaletteMapping::Original(original) => materials == original,
                PaletteMapping::Remapped(remapped) => *materials == remapped.0,
            },
    {
        match self {
            PaletteMapping::Original(original) => original,
            PaletteMapping::Remapped(remapped) => &remapped.0,
        }
    }
}

/// What the remapper knows while it works.
pub struct RemapState {
    /// For each slot the scene's index of the material that sits in it.
    pub new_to_orig: Seq<u8>,
    /// For each slot whether the material in it is known to sit in the
    /// range of its kind.
    pub settled: Seq<bool>,
    /// The scene's indices of the materials that have to stay but found no
    /// slot in the range of their kind.
    pub overflowed: Seq<u8>,
}

/// Whether every material of a palette may sit where it is.
pub open spec fn all_fit(palette: Seq<Material>) -> bool {
    forall|i: int| 0 <= i < palette.len() ==> (#[trigger] palette[i]).fits(i)
}

/// The tier in which the slot of a material is visited.
pub open spec fn tier(material: Material) -> int {
    if !material.replacable {
        0
    } else if material.kind != MaterialKind::Absent {
        1
    } else {
        2
    }
}

/// The state before any slot has been visited: each material sits in its
/// own slot, and a slot is settled where it is reserved for the kind of its
/// material.
pub open spec fn initial(palette: Seq<Material>) -> RemapState {
    RemapState {
        new_to_orig: Seq::new(256, |i: int| i as u8),
        settled: Seq::new(256, |i: int| MaterialKind::reserved_for(i) == palette[i].kind),
        overflowed: Seq::empty(),
    }
}

/// The first slot from `lo` to `hi` that is not settled.
pub open spec fn first_unsettled(settled: Seq<bool>, lo: int, hi: int) -> Option<int>
    decreases hi - lo + 1,
{
    if lo > hi {
        None
    } else if !settled[lo] {
        Some(lo)
    } else {
        first_unsettled(settled, lo + 1, hi)
    }
}

/// The first slot from `lo` to `hi` that holds a replaceable material.
pub open spec fn first_replaceable(
    palette: Seq<Material>,
    new_to_orig: Seq<u8>,
    lo: int,
    hi: int,
) -> Option<int>
    decreases hi - lo + 1,
{
    if lo > hi {
        None
    } else if palette[new_to_orig[lo] as int].replacable {
        Some(lo)
    } else {
        first_replaceable(palette, new_to_orig, lo + 1, hi)
    }
}

/// The state after the materials of the slots `i` and `j` have changed
/// places and slot `j` has been settled.
pub open spec fn moved(state: RemapState, i: int, j: int) -> RemapState {
    RemapState {
        new_to_orig: state.new_to_orig.update(i, state.new_to_orig[j]).update(
            j,
            state.new_to_orig[i],
        ),
        settled: state.settled.update(j, true),
        overflowed: state.overflowed,
    }
}

/// The slot that the material of slot `i` moves to when slot `i` is
/// visited, if it moves.
///
/// A settled slot and a slot with a material of kind `Absent` are left as
/// they are. The material of any other slot goes to the first slot in the
/// range of its kind that is not settled. Where every slot of the range is
/// settled, a material that has to stay takes the first slot of the range
/// that holds a replaceable material; a replaceable material stays where
/// it is.
pub open spec fn destination(palette: Seq<Material>, state: RemapState, i: int) -> Option<int> {
    let material = palette[state.new_to_orig[i] as int];
    if state.settled[i] {
        None
    } else {
        match material.kind.canonical_range() {
            None => None,
            Some((lo, hi)) => match first_unsettled(state.settled, lo as int, hi as int) {
                Some(j) => Some(j),
                None => if material.replacable {
                    None
                } else {
                    first_replaceable(palette, state.new_to_orig, lo as int, hi as int)
                },
            },
        }
    }
}

/// Whether the material of slot `i` is out of place and finds no slot to
/// move to.
pub open spec fn stranded(palette: Seq<Material>, state: RemapState, i: int) -> bool {
    &&& !state.settled[i]
    &&& palette[state.new_to_orig[i] as int].kind != MaterialKind::Absent
    &&& destination(palette, state, i) is None
}

/// The state after slot `i` has been visited: its material has moved to
/// its destination, or is recorded as overflowed where it is stranded and
/// has to stay.
pub open spec fn place(palette: Seq<Material>, state: RemapState, i: int) -> RemapState {
    match destination(palette, state, i) {
        Some(j) => moved(state, i, j),
        None => if stranded(palette, state, i) && !palette[state.new_to_orig[i] as int].replacable {
            RemapState {
                new_to_orig: state.new_to_orig,
                settled: state.settled,
                overflowed: state.overflowed.push(state.new_to_orig[i]),
            }
        } else {
            state
        },
    }
}

/// The state after the first `steps` steps. Step `256 * t + i` visits slot
/// `i` if the scene's material at index `i` is of tier `t`.
pub open spec fn progress(palette: Seq<Material>, steps: nat) -> RemapState
    decreases steps,
{
    if steps == 0 {
        initial(palette)
    } else {
        let before = progress(palette, (steps - 1) as nat);
        let slot = (steps - 1) % 256;
        if tier(palette[slot]) == (steps - 1) / 256 {
            place(palette, before, slot)
        } else {
            before
        }
    }
}

/// The state after all three tiers have been visited.
pub open spec fn outcome(palette: Seq<Material>) -> RemapState {
    progress(palette, 768)
}

/// Whether `new_to_orig` lists each palette index once.
pub open spec fn is_arrangement(new_to_orig: Seq<u8>) -> bool {
    &&& new_to_orig.len() == 256
    &&& forall|i: int, j: int|
        0 <= i < 256 && 0 <= j < 256 && i != j ==> new_to_orig[i] != new_to_orig[j]
}

/// What holds of the state after every step: the slots hold each material
/// once, a settled slot is reserved for the kind of its material, and a
/// material that has to stay and sat in the range of its kind from the
/// start is still in its slot.
pub open spec fn sound(palette: Seq<Material>, state: RemapState) -> bool {
    &&& is_arrangement(state.new_to_orig)
    &&& state.settled.len() == 256
    &&& forall|j: int|
        0 <= j < 256 && #[trigger] state.settled[j] ==> MaterialKind::reserved_for(j)
            == palette[state.new_to_orig[j] as int].kind
    &&& forall|j: int|
        0 <= j < 256 && !palette[j].replacable && (#[trigger] palette[j]).kind.owns(j)
            ==> state.new_to_orig[j] == j && state.settled[j]
}

/// A search for an unsettled slot finds the first one in its bounds, or
/// none where every slot in its bounds is settled.
pub proof fn lemma_first_unsettled(settled: Seq<bool>, lo: int, hi: int)
    ensures
        match first_unsettled(settled, lo, hi) {
            Some(j) => lo <= j <= hi && !settled[j] && forall|k: int| lo <= k < j ==> settled[k],
            None => forall|k: int| lo <= k <= hi ==> settled[k],
        },
    decreases hi - lo + 1,
{
    if lo <= hi && settled[lo] {
        lemma_first_unsettled(settled, lo + 1, hi);
    }
}

/// A search for a replaceable material finds the first slot in its bounds
/// that holds one, or none where no slot in its bounds does.
pub proof fn lemma_first_replaceable(
    palette: Seq<Material>,
    new_to_orig: Seq<u8>,
    lo: int,
    hi: int,
)
    ensures
        match first_replaceable(palette, new_to_orig, lo, hi) {
            Some(j) => lo <= j <= hi && palette[new_to_orig[j] as int].replacable && forall|k: int|
                lo <= k < j ==> !palette[new_to_orig[k] as int].replacable,
            None => forall|k: int| lo <= k <= hi ==> !palette[new_to_orig[k] as int].replacable,
        },
    decreases hi - lo + 1,
{
    if lo <= hi && !palette[new_to_orig[lo] as int].replacable {
        lemma_first_replaceable(palette, new_to_orig, lo + 1, hi);
    }
}

/// A destination lies in the range of the kind of the material that moves
/// there, and is either not settled or holds a replaceable material.
pub proof fn lemma_destination(palette: Seq<Material>, state: RemapState, i: int)
    ensures
        match destination(palette, state, i) {
            Some(j) => {
                &&& !state.settled[i]
                &&& palette[state.new_to_orig[i] as int].kind.owns(j)
                &&& !state.settled[j] || (!palette[state.new_to_orig[i] as int].replacable
                    && palette[state.new_to_orig[j] as int].replacable)
            },
            None => true,
        },
{
    let material = palette[state.new_to_orig[i] as int];
    match material.kind.canonical_range() {
        None => {},
        Some((lo, hi)) => {
            lemma_first_unsettled(state.settled, lo as int, hi as int);
            lemma_first_replaceable(palette, state.new_to_orig, lo as int, hi as int);
        },
    }
}

/// Visiting a slot keeps the state sound.
pub proof fn lemma_place_sound(palette: Seq<Material>, state: RemapState, i: int)
    requires
        palette.len() == 256,
        sound(palette, state),
        0 <= i < 256,
    ensures
        sound(palette, place(palette, state, i)),
{
    lemma_destination(palette, state, i);
    match destination(palette, state, i) {
        Some(j) => {
            let material = palette[state.new_to_orig[i] as int];
            let after = moved(state, i, j);
            lemma_reserved_for_owns(material.kind, j);
            assert forall|k: int|
                0 <= k < 256 && !palette[k].replacable && (#[trigger] palette[k]).kind.owns(
                    k,
                ) implies after.new_to_orig[k] == k && after.settled[k] by {
                assert(state.new_to_orig[k] == k && state.settled[k]);
            }
        },
        None => {},
    }
}

/// The state is sound after every step.
pub proof fn lemma_progress_sound(palette: Seq<Material>, steps: nat)
    requires
        palette.len() == 256,
    ensures
        sound(palette, progress(palette, steps)),
    decreases steps,
{
    if steps == 0 {
        assert forall|j: int|
            0 <= j < 256 && !palette[j].replacable && (#[trigger] palette[j]).kind.owns(
                j,
            ) implies initial(palette).new_to_orig[j] == j && initial(palette).settled[j] by {
            lemma_reserved_for_owns(palette[j].kind, j);
        }
    } else {
        lemma_progress_sound(palette, (steps - 1) as nat);
        lemma_place_sound(palette, progress(palette, (steps - 1) as nat), (steps - 1) % 256);
    }
}

/// Remapping hands every material of the scene's palette to one slot, and
/// a material that has to stay and sits in the range of its kind keeps its
/// index.
pub proof fn lemma_remap_keeps_settled_materials(palette: Seq<Material>)
    requires
        palette.len() == 256,
    ensures
        is_arrangement(outcome(palette).new_to_orig),
        forall|j: int|
            0 <= j < 256 && !palette[j].replacable && (#[trigger] palette[j]).kind.owns(j)
                ==> outcome(palette).new_to_orig[j] == j,
{
    lemma_progress_sound(palette, 768);
}

/// The materials of the scene's palette in their new slots.
pub open spec fn arranged(palette: Seq<Material>, new_to_orig: Seq<u8>) -> Seq<Material> {
    Seq::new(256, |j: int| palette[new_to_orig[j] as int])
}

/// Whether `table` gives for each index of the scene's palette the slot
/// that holds its material.
pub open spec fn is_translation(table: Seq<u8>, new_to_orig: Seq<u8>) -> bool {
    &&& table.len() == 256
    &&& forall|j: int| 0 <= j < 256 ==> #[trigger] table[new_to_orig[j] as int] == j
}

/// Whether `mapping` is what remapping makes of a palette: the palette
/// itself where every material may sit where it is; else the materials as
/// the visits of all slots leave them, with the table from the scene's
/// indices to the new ones.
pub open spec fn is_remapping(mapping: PaletteMapping, palette: Seq<Material>) -> bool {
    match mapping {
        PaletteMapping::Original(original) => all_fit(palette) && original@ == palette,
        PaletteMapping::Remapped(remapped) => {
            &&& !all_fit(palette)
            &&& remapped.0@ == arranged(palette, outcome(palette).new_to_orig)
            &&& is_translation(remapped.1@, outcome(palette).new_to_orig)
        },
    }
}

/// With a single material out of place, one that has to stay, remapping
/// moves that material into the range of its kind and puts what was in its
/// new slot where the material came from; nothing else moves.
///
/// The new slot is the first of the range that holds a material of kind
/// `Absent`, or the first that holds a replaceable material where none
/// holds `Absent`. Where the whole range holds materials of the kind that
/// have to stay, nothing moves and the material is recorded as overflowed.
pub proof fn lemma_single_misplaced(palette: Seq<Material>, i: int)
    requires
        palette.len() == 256,
        0 <= i < 256,
        !palette[i].replacable,
        !palette[i].fits(i),
        forall|j: int| 0 <= j < 256 && j != i ==> (#[trigger] palette[j]).fits(j),
    ensures
        match destination(palette, initial(palette), i) {
            Some(d) => {
                &&& palette[i].kind.owns(d)
                &&& palette[d].kind == MaterialKind::Absent || palette[d].replacable
                &&& forall|k: int|
                    palette[i].kind.owns(k) && k < d ==> (#[trigger] palette[k]).kind
                        != MaterialKind::Absent
                &&& palette[d].kind != MaterialKind::Absent ==> forall|k: int|
                    palette[i].kind.owns(k) ==> (#[trigger] palette[k]).kind
                        != MaterialKind::Absent && (k < d ==> !palette[k].replacable)
                &&& outcome(palette).new_to_orig == initial(palette).new_to_orig.update(
                    i,
                    d as u8,
                ).update(d, i as u8)
                &&& outcome(palette).overflowed == Seq::<u8>::empty()
            },
            None => {
                &&& forall|k: int|
                    palette[i].kind.owns(k) ==> (#[trigger] palette[k]).kind == palette[i].kind
                        && !palette[k].replacable
                &&& outcome(palette).new_to_orig == initial(palette).new_to_orig
                &&& outcome(palette).overflowed == seq![i as u8]
            },
        },
{
    let start = initial(palette);
    let kind = palette[i].kind;
    let (lo, hi) = kind.canonical_range().unwrap();
    lemma_reserved_for_owns(kind, i);
    lemma_first_unsettled(start.settled, lo as int, hi as int);
    lemma_first_replaceable(palette, start.new_to_orig, lo as int, hi as int);
    assert forall|k: int| kind.owns(k) implies (start.settled[k] <==> (#[trigger] palette[k]).kind
        == kind) && (!start.settled[k] <==> palette[k].kind == MaterialKind::Absent)
        && start.new_to_orig[k] == k by {
        lemma_reserved_for_owns(kind, k);
        lemma_reserved_for_owns(palette[k].kind, k);
        assert(palette[k].fits(k));
    }
    lemma_single_misplaced_progress(palette, i, 768);
    assert(outcome(palette) == place(palette, start, i));
    assert(!start.settled[i]);
    match first_unsettled(start.settled, lo as int, hi as int) {
        Some(d) => {
            assert(destination(palette, start, i) == Some(d));
            assert(kind.owns(d));
            assert(palette[d].kind == MaterialKind::Absent);
            assert forall|k: int| kind.owns(k) && k < d implies (#[trigger] palette[k]).kind
                != MaterialKind::Absent by {
                assert(start.settled[k]);
            }
            assert(moved(start, i, d).new_to_orig =~= start.new_to_orig.update(i, d as u8).update(
                d,
                i as u8,
            ));
        },
        None => {
            assert forall|k: int| kind.owns(k) implies (#[trigger] palette[k]).kind == kind by {
                assert(start.settled[k]);
            }
            match first_replaceable(palette, start.new_to_orig, lo as int, hi as int) {
                Some(d) => {
                    assert(destination(palette, start, i) == Some(d));
                    assert(kind.owns(d));
                    assert(start.new_to_orig[d] == d);
                    assert(palette[d].replacable);
                    assert forall|k: int| kind.owns(k) implies (#[trigger] palette[k]).kind
                        != MaterialKind::Absent && (k < d ==> !palette[k].replacable) by {
                        assert(start.new_to_orig[k] == k);
                    }
                    assert(moved(start, i, d).new_to_orig =~= start.new_to_orig.update(
                        i,
                        d as u8,
                    ).update(d, i as u8));
                },
                None => {
                    assert(destination(palette, start, i) is None);
                    assert forall|k: int| kind.owns(k) implies (#[trigger] palette[k]).kind == kind
                        && !palette[k].replacable by {
                        assert(start.new_to_orig[k] == k);
                    }
                    assert(stranded(palette, start, i));
                    assert(place(palette, start, i).overflowed =~= seq![i as u8]);
                },
            }
        },
    }
}

/// With a single material out of place, the state changes at the step that
/// visits the slot of that material and at no other.
proof fn lemma_single_misplaced_progress(palette: Seq<Material>, i: int, steps: nat)
    requires
        palette.len() == 256,
        0 <= i < 256,
        !palette[i].replacable,
        !palette[i].fits(i),
        forall|j: int| 0 <= j < 256 && j != i ==> (#[trigger] palette[j]).fits(j),
        steps <= 768,
    ensures
        progress(palette, steps) == if steps <= i {
            initial(palette)
        } else {
            place(palette, initial(palette), i)
        },
    decreases steps,
{
    if steps > 0 {
        lemma_single_misplaced_progress(palette, i, (steps - 1) as nat);
        let start = initial(palette);
        let before = progress(palette, (steps - 1) as nat);
        let slot = (steps - 1) % 256;
        lemma_destination(palette, start, i);
        if tier(palette[slot]) == (steps - 1) / 256 && steps - 1 != i {
            assert(slot != i);
            assert(palette[slot].fits(slot));
            lemma_reserved_for_owns(palette[slot].kind, slot);
            assert(start.settled[slot] || palette[slot].kind == MaterialKind::Absent);
            assert(before.settled[slot] || palette[before.new_to_orig[slot] as int].kind
                == MaterialKind::Absent);
            assert(place(palette, before, slot) == before);
        }
    }
}

/// Remapping what came back as it was gives it back as it was again.
pub proof fn lemma_original_stays(
    mapping: PaletteMapping,
    palette: Seq<Material>,
    again: PaletteMapping,
)
    requires
        is_remapping(mapping, palette),
        mapping is Original,
        is_remapping(again, mapping->Original_0@),
    ensures
        again is Original,
        again->Original_0@ == palette,
{
}

/// Whether no slot before slot `i` holds a material out of place that has
/// to stay and is of the kind for which slot `i` is reserved. Such a
/// material would be visited first and could take slot `i`, and with it
/// the turn of the material in slot `i`.
pub open spec fn keeps_its_turn(palette: Seq<Material>, i: int) -> bool {
    forall|j: int|
        0 <= j < i && !palette[j].replacable && !(#[trigger] palette[j]).fits(j)
            ==> !palette[j].kind.owns(i)
}

/// Whether the material with the scene's index `i` sits in the range of
/// its kind.
pub open spec fn is_placed(palette: Seq<Material>, state: RemapState, i: int) -> bool {
    exists|p: int|
        0 <= p < 256 && palette[i].kind.owns(p) && #[trigger] state.new_to_orig[p] == i
            && state.settled[p]
}

/// Whether the material with the scene's index `i` is recorded as
/// overflowed and the range of its kind is full of materials of the kind
/// that have to stay.
pub open spec fn is_crowded_out(palette: Seq<Material>, state: RemapState, i: int) -> bool {
    &&& state.overflowed.contains(i as u8)
    &&& forall|p: int|
        palette[i].kind.owns(p) ==> (#[trigger] state.settled[p])
            && !palette[state.new_to_orig[p] as int].replacable
}

/// A settled slot with a material that has to stay is left alone by every
/// visit.
pub proof fn lemma_settled_stays(palette: Seq<Material>, state: RemapState, visited: int, j: int)
    requires
        palette.len() == 256,
        sound(palette, state),
        0 <= visited < 256,
        0 <= j < 256,
        state.settled[j],
        !palette[state.new_to_orig[j] as int].replacable,
    ensures
        place(palette, state, visited).new_to_orig[j] == state.new_to_orig[j],
        place(palette, state, visited).settled[j],
{
    lemma_destination(palette, state, visited);
}

/// A material out of place that has to stay and keeps its turn ends in
/// the range of its kind, or is recorded as overflowed where that range is
/// full of materials of the kind that have to stay.
pub proof fn lemma_misplaced_is_placed(palette: Seq<Material>, i: int)
    requires
        palette.len() == 256,
        0 <= i < 256,
        !palette[i].replacable,
        !palette[i].fits(i),
        keeps_its_turn(palette, i),
    ensures
        is_placed(palette, outcome(palette), i) || is_crowded_out(palette, outcome(palette), i),
        is_crowded_out(palette, outcome(palette), i) ==> forall|p: int|
            palette[i].kind.owns(p) ==> (#[trigger] palette[outcome(
                palette,
            ).new_to_orig[p] as int]).kind == palette[i].kind,
{
    lemma_after_its_turn(palette, i, 768);
    lemma_progress_sound(palette, 768);
    let end = outcome(palette);
    if is_crowded_out(palette, end, i) {
        assert forall|p: int| palette[i].kind.owns(p) implies (
        #[trigger] palette[end.new_to_orig[p] as int]).kind == palette[i].kind by {
            assert(end.settled[p]);
            lemma_reserved_for_owns(palette[i].kind, p);
        }
    }
}

/// A visit keeps what is recorded as overflowed and may add to it.
proof fn lemma_overflow_grows(palette: Seq<Material>, state: RemapState, visited: int)
    ensures
        state.overflowed.len() <= place(palette, state, visited).overflowed.len(),
        forall|at: int|
            0 <= at < state.overflowed.len() ==> place(palette, state, visited).overflowed[at]
                == state.overflowed[at],
{
}

/// Before the slot of a material that keeps its turn is visited, the
/// material sits in its slot, which is not settled; and each slot that is
/// yet to be visited and is not settled holds the material that it held
/// at the start.
proof fn lemma_before_its_turn(palette: Seq<Material>, i: int, steps: nat)
    requires
        palette.len() == 256,
        0 <= i < 256,
        !palette[i].replacable,
        !palette[i].fits(i),
        keeps_its_turn(palette, i),
        steps <= i,
    ensures
        progress(palette, steps).new_to_orig[i] == i,
        !progress(palette, steps).settled[i],
        forall|j: int|
            steps <= j < 256 && !(#[trigger] progress(palette, steps).settled[j]) ==> progress(
                palette,
                steps,
            ).new_to_orig[j] == j && !initial(palette).settled[j],
    decreases steps,
{
    lemma_reserved_for_owns(palette[i].kind, i);
    if steps > 0 {
        lemma_before_its_turn(palette, i, (steps - 1) as nat);
        lemma_progress_sound(palette, (steps - 1) as nat);
        let before = progress(palette, (steps - 1) as nat);
        let visited = steps - 1;
        let after = progress(palette, steps);
        lemma_destination(palette, before, visited);
        if tier(palette[visited]) == 0 {
            match destination(palette, before, visited) {
                Some(d) => {
                    assert(!before.settled[visited]);
                    assert(before.new_to_orig[visited] == visited);
                    lemma_reserved_for_owns(palette[visited].kind, visited);
                    assert(!palette[visited].fits(visited));
                    assert(!palette[visited].kind.owns(i));
                    assert(d != i);
                },
                None => {},
            }
        }
    }
}

/// Once the slot of a material that keeps its turn has been visited, the
/// material sits in the range of its kind or is crowded out, and stays so.
proof fn lemma_after_its_turn(palette: Seq<Material>, i: int, steps: nat)
    requires
        palette.len() == 256,
        0 <= i < 256,
        !palette[i].replacable,
        !palette[i].fits(i),
        keeps_its_turn(palette, i),
        i < steps <= 768,
    ensures
        is_placed(palette, progress(palette, steps), i) || is_crowded_out(
            palette,
            progress(palette, steps),
            i,
        ),
    decreases steps,
{
    let kind = palette[i].kind;
    let before = progress(palette, (steps - 1) as nat);
    let after = progress(palette, steps);
    let visited = (steps - 1) % 256;
    lemma_progress_sound(palette, (steps - 1) as nat);
    lemma_progress_sound(palette, steps);
    lemma_reserved_for_owns(kind, i);
    assert(after == place(palette, before, visited) || after == before);
    if steps == i + 1 {
        lemma_before_its_turn(palette, i, i as nat);
        lemma_destination(palette, before, i);
        let (lo, hi) = kind.canonical_range().unwrap();
        lemma_first_unsettled(before.settled, lo as int, hi as int);
        lemma_first_replaceable(palette, before.new_to_orig, lo as int, hi as int);
        assert(tier(palette[i]) == 0);
        match destination(palette, before, i) {
            Some(d) => {
                assert(after == moved(before, i, d));
                assert(after.new_to_orig[d] == i);
                assert(is_placed(palette, after, i));
            },
            None => {
                assert(stranded(palette, before, i));
                assert(after.overflowed == before.overflowed.push(i as u8));
                assert(after.overflowed[before.overflowed.len() as int] == i as u8);
                assert(is_crowded_out(palette, after, i));
            },
        }
    } else {
        lemma_after_its_turn(palette, i, (steps - 1) as nat);
        if is_placed(palette, before, i) {
            let p = choose|p: int|
                0 <= p < 256 && kind.owns(p) && #[trigger] before.new_to_orig[p] == i
                    && before.settled[p];
            lemma_settled_stays(palette, before, visited, p);
            assert(after.new_to_orig[p] == i && after.settled[p]);
            assert(is_placed(palette, after, i));
        } else {
            assert(is_crowded_out(palette, before, i));
            assert forall|p: int| kind.owns(p) implies (#[trigger] after.settled[p])
                && !palette[after.new_to_orig[p] as int].replacable by {
                assert(before.settled[p]);
                lemma_settled_stays(palette, before, visited, p);
            }
            let at = choose|at: int|
                0 <= at < before.overflowed.len() && before.overflowed[at] == i as u8;
            lemma_overflow_grows(palette, before, visited);
            assert(after.overflowed[at] == i as u8);
            assert(is_crowded_out(palette, after, i));
        }
    }
}

/// The tier in which the slot of `material` is visited.
pub fn tier_of(material: &Material) -> (t: u8)
    ensures
        t == tier(*material),
{
    if !material.replacable {
        0
    } else {
        match material.kind {
            MaterialKind::Absent => 2,
            _ => 1,
        }
    }
}

/// Visits slot `i_u8`: moves its material to its destination, if it has
/// one. `Err` where the material is stranded.
#[verifier::loop_isolation(false)]
fn try_swap_index(
    i_u8: u8,
    orig_palette: &[Material; 256],
    new_to_orig: &mut [u8; 256],
    correct: &mut [bool; 256],
) -> (r: Result<(), ()>)
    ensures
        ({
            let before = RemapState {
                new_to_orig: old(new_to_orig)@,
                settled: old(correct)@,
                overflowed: Seq::empty(),
            };
            &&& r is Err == stranded(orig_palette@, before, i_u8 as int)
            &&& match destination(orig_palette@, before, i_u8 as int) {
                Some(j) => final(new_to_orig)@ == moved(before, i_u8 as int, j).new_to_orig
                    && final(correct)@ == moved(before, i_u8 as int, j).settled,
                None => final(new_to_orig)@ == old(new_to_orig)@ && final(correct)@ == old(
                    correct,
                )@,
            }
        }),
{
    let i = i_u8 as usize;
    if correct[i] {
        return Ok(());
    }
    let material = &orig_palette[new_to_orig[i] as usize];
    match range_for_material_kind(material.kind) {
        None => Ok(()),
        Some(range) => {
            let lo = range[0];
            let hi = range[1];
            let mut swap_i: usize = lo as usize;
            while swap_i <= hi as usize
                invariant
                    i == i_u8,
                    lo <= swap_i <= hi + 1,
                    hi <= 255,
                    new_to_orig@ == old(new_to_orig)@,
                    correct@ == old(correct)@,
                    first_unsettled(correct@, lo as int, hi as int) == first_unsettled(
                        correct@,
                        swap_i as int,
                        hi as int,
                    ),
                decreases hi + 1 - swap_i,
            {
                if !correct[swap_i] {
                    let here = new_to_orig[i];
                    new_to_orig[i] = new_to_orig[swap_i];
                    new_to_orig[swap_i] = here;
                    correct[swap_i] = true;
                    assert(new_to_orig@ =~= old(new_to_orig)@.update(
                        i as int,
                        old(new_to_orig)@[swap_i as int],
                    ).update(swap_i as int, old(new_to_orig)@[i as int]));
                    assert(correct@ =~= old(correct)@.update(swap_i as int, true));
                    return Ok(());
                }
                swap_i = swap_i + 1;
            }
            if !material.replacable {
                let mut swap_i: usize = lo as usize;
                while swap_i <= hi as usize
                    invariant
                        i == i_u8,
                        lo <= swap_i <= hi + 1,
                        hi <= 255,
                        new_to_orig@ == old(new_to_orig)@,
                        correct@ == old(correct)@,
                        first_unsettled(correct@, lo as int, hi as int) is None,
                        first_replaceable(orig_palette@, new_to_orig@, lo as int, hi as int)
                            == first_replaceable(
                            orig_palette@,
                            new_to_orig@,
                            swap_i as int,
                            hi as int,
                        ),
                    decreases hi + 1 - swap_i,
                {
                    if orig_palette[new_to_orig[swap_i] as usize].replacable {
                        proof {
                            lemma_first_unsettled(correct@, lo as int, hi as int);
                        }
                        let here = new_to_orig[i];
                        new_to_orig[i] = new_to_orig[swap_i];
                        new_to_orig[swap_i] = here;
                        correct[swap_i] = true;
                        assert(new_to_orig@ =~= old(new_to_orig)@.update(
                            i as int,
                            old(new_to_orig)@[swap_i as int],
                        ).update(swap_i as int, old(new_to_orig)@[i as int]));
                        assert(correct@ =~= old(correct)@.update(swap_i as int, true));
                        return Ok(());
                    }
                    swap_i = swap_i + 1;
                }
            }
            Err(())
        },
    }
}

/// Whether every material of `palette` may sit where it is.
pub fn is_in_order(palette: &[Material; 256]) -> (in_order: bool)
    ensures
        in_order == all_fit(palette@),
{
    let mut i: usize = 0;
    while i < 256
        invariant
            i <= 256,
            forall|k: int| 0 <= k < i ==> (#[trigger] palette@[k]).fits(k),
        decreases 256 - i,
    {
        if !palette[i].is_at_home(i as u8) {
            return false;
        }
        i = i + 1;
    }
    true
}

/// Rearranges the materials of a palette so that they sit in the ranges of
/// their kinds, and lists the materials for which that failed.
///
/// A palette in which every material may sit where it is comes back as it
/// is. For any other the result holds the materials in their new slots,
/// the table from the scene's indices to the new ones, and the scene's
/// indices of the materials that have to stay but found no slot in the
/// range of their kind.
pub fn remap_with_report<'a>(orig_palette: &'a [Material; 256]) -> (r: (
    PaletteMapping<'a>,
    Vec<u8>,
))
    ensures
        is_remapping(r.0, orig_palette@),
        match r.0 {
            PaletteMapping::Original(original) => original == orig_palette && r.1@.len() == 0,
            PaletteMapping::Remapped(_) => r.1@ == outcome(orig_palette@).overflowed,
        },
{
    if is_in_order(orig_palette) {
        return (PaletteMapping::Original(orig_palette), Vec::new());
    }
    let ghost palette = orig_palette@;
    let mut new_to_orig = [0u8; 256];
    let mut correct = [false; 256];
    let mut i: usize = 0;
    while i < 256
        invariant
            i <= 256,
            palette == orig_palette@,
            forall|k: int| 0 <= k < i ==> new_to_orig@[k] == k,
            forall|k: int|
                0 <= k < i ==> correct@[k] == (MaterialKind::reserved_for(k) == palette[k].kind),
        decreases 256 - i,
    {
        new_to_orig[i] = i as u8;
        correct[i] = material_kind_for_index(i as u8) == orig_palette[i].kind;
        i = i + 1;
    }
    let mut overflowed: Vec<u8> = Vec::new();
    assert(new_to_orig@ =~= initial(palette).new_to_orig);
    assert(correct@ =~= initial(palette).settled);
    let mut step: usize = 0;
    while step < 768
        invariant
            step <= 768,
            palette == orig_palette@,
            new_to_orig@ == progress(palette, step as nat).new_to_orig,
            correct@ == progress(palette, step as nat).settled,
            overflowed@ == progress(palette, step as nat).overflowed,
        decreases 768 - step,
    {
        let slot = step % 256;
        let ghost before = progress(palette, step as nat);
        if tier_of(&orig_palette[slot]) as usize == step / 256 {
            let swap = try_swap_index(slot as u8, orig_palette, &mut new_to_orig, &mut correct);
            proof {
                let bare = RemapState {
                    new_to_orig: before.new_to_orig,
                    settled: before.settled,
                    overflowed: Seq::empty(),
                };
                assert(destination(palette, bare, slot as int) == destination(
                    palette,
                    before,
                    slot as int,
                ));
                assert(stranded(palette, bare, slot as int) == stranded(
                    palette,
                    before,
                    slot as int,
                ));
            }
            if swap.is_err() {
                let material = &orig_palette[new_to_orig[slot] as usize];
                if !material.replacable {
                    overflowed.push(new_to_orig[slot]);
                }
            }
        }
        step = step + 1;
    }
    proof {
        lemma_progress_sound(palette, 768);
    }
    let mut orig_to_new = [0u8; 256];
    let mut new_palette = *orig_palette;
    let mut new: usize = 0;
    while new < 256
        invariant
            new <= 256,
            palette == orig_palette@,
            is_arrangement(new_to_orig@),
            forall|j: int| 0 <= j < new ==> #[trigger] orig_to_new@[new_to_orig@[j] as int] == j,
            forall|j: int| 0 <= j < new ==> new_palette@[j] == palette[new_to_orig@[j] as int],
        decreases 256 - new,
    {
        orig_to_new[new_to_orig[new] as usize] = new as u8;
        new_palette[new] = orig_palette[new_to_orig[new] as usize];
        new = new + 1;
    }
    assert(new_palette@ =~= arranged(palette, new_to_orig@));
    (PaletteMapping::Remapped(Box::new((new_palette, orig_to_new))), overflowed)
}

/// Rearranges the materials of a palette so that they sit in the ranges of
/// their kinds.
///
/// A palette in which every material may sit where it is comes back as it
/// is. For any other the result holds the materials in their new slots and
/// the table from the scene's indices to the new ones.
pub fn remap_materials<'a>(orig_palette: &'a [Material; 256]) -> (mapping: PaletteMapping<'a>)
    ensures
        is_remapping(mapping, orig_palette@),
        mapping matches PaletteMapping::Original(original) ==> original == orig_palette,
{
    remap_with_report(orig_palette).0
}

/// A material that found no slot in the range of its kind.
#[derive(Clone, Copy, Debug)]
pub struct FailedMapping {
    /// The kind of the material.
    pub kind: MaterialKind,
    /// The kind for which the slot that it ended in is reserved.
    pub placed_as: MaterialKind,
    /// The slot that it ended in.
    pub index: u8,
}

/// Says of each overflowed material what kind it has, where it ended, and
/// what kind that slot is reserved for.
pub fn failed_mappings(
    forced_filler_orig_indices: &[u8],
    orig_palette: &[Material; 256],
    indices_orig_to_new: &[u8; 256],
) -> (failed: Vec<FailedMapping>)
    ensures
        failed@.len() == forced_filler_orig_indices@.len(),
        forall|k: int|
            0 <= k < failed@.len() ==> {
                let orig_i = forced_filler_orig_indices@[k] as int;
                &&& (#[trigger] failed@[k]).kind == orig_palette@[orig_i].kind
                &&& failed@[k].index == indices_orig_to_new@[orig_i]
                &&& failed@[k].placed_as == MaterialKind::reserved_for(
                    indices_orig_to_new@[orig_i] as int,
                )
            },
{
    let mut failed: Vec<FailedMapping> = Vec::new();
    let mut k: usize = 0;
    while k < forced_filler_orig_indices.len()
        invariant
            k <= forced_filler_orig_indices@.len(),
            failed@.len() == k,
            forall|n: int|
                0 <= n < k ==> {
                    let orig_i = forced_filler_orig_indices@[n] as int;
                    &&& (#[trigger] failed@[n]).kind == orig_palette@[orig_i].kind
                    &&& failed@[n].index == indices_orig_to_new@[orig_i]
                    &&& failed@[n].placed_as == MaterialKind::reserved_for(
                        indices_orig_to_new@[orig_i] as int,
                    )
                },
        decreases forced_filler_orig_indices@.len() - k,
    {
        let orig_i = forced_filler_orig_indices[k] as usize;
        let index = indices_orig_to_new[orig_i];
        failed.push(
            FailedMapping {
                kind: orig_palette[orig_i].kind,
                placed_as: material_kind_for_index(index),
                index,
            },
        );
        k = k + 1;
    }
    failed
}

} // verus!
