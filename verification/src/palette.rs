//! Palettes as a scene file holds them.

use crate::material::{Material, TintKind};
use crate::parser::{Decode, Failure, ParseError, Parser};
use crate::parser::{at_field, end_of, failed, field, value_of, views};
use crate::parser::{lemma_reads_bytes, lemma_reads_list, lemma_reads_u8};
use crate::parser::{lemma_same_later};
use crate::parser::{spec_bytes, spec_list, spec_u8};
use vstd::prelude::*;

verus! {

/// A palette: 256 materials, of which the first is not used by
/// convention, and the tables that give the tinted form of each.
#[derive(Clone, Debug)]
pub struct Palette {
    pub materials: [Material; 256],
    pub tint_tables: Vec<u8>,
    pub z_u8_eq_0: u8,
}

/// What a palette holds.
pub struct PaletteView {
    pub materials: Seq<Material>,
    pub tint_tables: Seq<u8>,
    pub z_u8_eq_0: u8,
}

impl View for Palette {
    type V = PaletteView;

    open spec fn view(&self) -> PaletteView {
        PaletteView {
            materials: self.materials@,
            tint_tables: self.tint_tables@,
            z_u8_eq_0: self.z_u8_eq_0,
        }
    }
}

impl Decode for Palette {
    /// The 256 materials, the 2048 bytes of the tint tables, and one byte.
    open spec fn spec_parse(bytes: Seq<u8>, at: int) -> Result<(PaletteView, int), Failure> {
        let materials = field(spec_list::<Material>(bytes, at, 256), "materials");
        let tint_tables = field(spec_bytes(bytes, end_of(materials), 2048), "tint_tables");
        let z_u8_eq_0 = field(spec_u8(bytes, end_of(tint_tables)), "z_u8_eq_0");
        if materials is Err {
            failed(materials)
        } else if tint_tables is Err {
            failed(tint_tables)
        } else if z_u8_eq_0 is Err {
            failed(z_u8_eq_0)
        } else {
            Ok(
                (
                    PaletteView {
                        materials: value_of(materials),
                        tint_tables: value_of(tint_tables),
                        z_u8_eq_0: value_of(z_u8_eq_0),
                    },
                    end_of(z_u8_eq_0),
                ),
            )
        }
    }

    fn parse(parser: &mut Parser) -> (got: Result<Palette, ParseError>) {
        let read = at_field(parser.read_list::<Material>(256), "materials")?;
        let tint_tables = at_field(parser.read_bytes(2048), "tint_tables")?;
        let z_u8_eq_0 = at_field(parser.read_u8(), "z_u8_eq_0")?;
        let blank = Material::default();
        let mut materials = [blank; 256];
        let mut i: usize = 0;
        while i < 256
            invariant
                i <= 256,
                read@.len() == 256,
                forall|k: int| 0 <= k < i ==> materials@[k] == read@[k],
            decreases 256 - i,
        {
            materials[i] = read[i];
            i = i + 1;
        }
        assert(materials@ =~= views(read@));
        Ok(Palette { materials, tint_tables, z_u8_eq_0 })
    }

    proof fn lemma_reads_ahead(a: Seq<u8>, b: Seq<u8>, at: int) {
        lemma_reads_list::<Material>(a, b, at, 256);
        let materials = field(spec_list::<Material>(a, at, 256), "materials");
        if materials is Ok {
            lemma_same_later(a, b, at, end_of(materials));
            lemma_reads_bytes(a, b, end_of(materials), 2048);
            let tint_tables = field(spec_bytes(a, end_of(materials), 2048), "tint_tables");
            if tint_tables is Ok {
                lemma_same_later(a, b, at, end_of(tint_tables));
                lemma_reads_u8(a, b, end_of(tint_tables));
            }
        }
    }
}

/// Where the tint tables hold the tinted form of the palette index
/// `index`, `extra_steps` shades on.
pub open spec fn tint_place(index: u8, tint_kind: TintKind, extra_steps: u8) -> int {
    (match tint_kind {
        TintKind::Black => 0int,
        TintKind::Yellow => 1024int,
    }) + extra_steps * 4 + index + 1
}

impl Palette {
    /// The tinted form of the material with the palette index `index`:
    /// the material whose index the tint table holds for it. `None` where
    /// the table holds 0 or ends before the place to look at.
    pub fn tinted_material(&self, index: u8, tint_kind: TintKind, extra_steps: u8) -> (tinted:
        Option<&Material>)
        ensures
            tinted == if tint_place(index, tint_kind, extra_steps) < self.tint_tables@.len()
                && self.tint_tables@[tint_place(index, tint_kind, extra_steps)] != 0 {
                Some(
                    &self.materials@[self.tint_tables@[tint_place(
                        index,
                        tint_kind,
                        extra_steps,
                    )] as int],
                )
            } else {
                None
            },
    {
        let tint_kind_offset: usize = match tint_kind {
            TintKind::Black => 0,
            TintKind::Yellow => 1024,
        };
        let place = tint_kind_offset + extra_steps as usize * 4 + index as usize + 1;
        if place < self.tint_tables.len() {
            let i = self.tint_tables[place];
            if i != 0 {
                return Some(&self.materials[i as usize]);
            }
        }
        None
    }
}

} // verus!
