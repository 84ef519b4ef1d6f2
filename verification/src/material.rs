//! Materials, palettes and the canonical index range of each material kind.

use crate::numeric::Real32;
use crate::parser::{at_field, end_of, fail, failed, field, value_of};
use crate::parser::{lemma_reads_bool, lemma_reads_real32, lemma_reads_real32x3};
use crate::parser::{lemma_reads_real32x4, lemma_reads_u8, lemma_same_later};
use crate::parser::{spec_bool, spec_real32, spec_real32x3, spec_real32x4, spec_u8};
use crate::parser::{Decode, Failure, ParseError, ParseErrorKind, Parser};
use vstd::prelude::*;

verus! {

/// Number of material slots in a palette.
pub const PALETTE_SIZE: usize = 256;

/// Number of tint tables that follow the materials of a palette.
pub const N_TINTS: usize = 2;

/// Number of shades that a tint table holds for each palette index.
pub const TINT_SHADES: usize = 4;

/// Number of bytes of all tint tables of a palette.
pub const TINT_TABLE_BYTES: usize = 2048;

/// The physical class of a material.
#[derive(Clone, Copy, Debug, PartialEq, Eq, Hash, Structural)]
pub enum MaterialKind {
    /// No material: the slot is unused.
    Absent,
    Glass,
    Wood,
    /// Also known as concrete and brick.
    Masonry,
    Plaster,
    /// Also known as weak metal.
    Metal,
    HeavyMetal,
    Rock,
    Dirt,
    /// Also known as grass.
    Foliage,
    Plastic,
    HardMetal,
    HardMasonry,
    Unknown13,
    Unphysical,
}

/// The tint table to look a material up in.
#[derive(Clone, Copy, Debug, PartialEq, Eq, Structural)]
pub enum TintKind {
    Black,
    Yellow,
}

impl MaterialKind {
    /// The byte that stands for this kind in a scene file.
    pub open spec fn code(self) -> u8 {
        match self {
            MaterialKind::Absent => 0,
            MaterialKind::Glass => 1,
            MaterialKind::Wood => 2,
            MaterialKind::Masonry => 3,
            MaterialKind::Plaster => 4,
            MaterialKind::Metal => 5,
            MaterialKind::HeavyMetal => 6,
            MaterialKind::Rock => 7,
            MaterialKind::Dirt => 8,
            MaterialKind::Foliage => 9,
            MaterialKind::Plastic => 10,
            MaterialKind::HardMetal => 11,
            MaterialKind::HardMasonry => 12,
            MaterialKind::Unknown13 => 13,
            MaterialKind::Unphysical => 14,
        }
    }

    /// The kind that a byte of a scene file stands for, if any.
    pub open spec fn of_code(code: u8) -> Option<MaterialKind> {
        if code == 0 {
            Some(MaterialKind::Absent)
        } else if code == 1 {
            Some(MaterialKind::Glass)
        } else if code == 2 {
            Some(MaterialKind::Wood)
        } else if code == 3 {
            Some(MaterialKind::Masonry)
        } else if code == 4 {
            Some(MaterialKind::Plaster)
        } else if code == 5 {
            Some(MaterialKind::Metal)
        } else if code == 6 {
            Some(MaterialKind::HeavyMetal)
        } else if code == 7 {
            Some(MaterialKind::Rock)
        } else if code == 8 {
            Some(MaterialKind::Dirt)
        } else if code == 9 {
            Some(MaterialKind::Foliage)
        } else if code == 10 {
            Some(MaterialKind::Plastic)
        } else if code == 11 {
            Some(MaterialKind::HardMetal)
        } else if code == 12 {
            Some(MaterialKind::HardMasonry)
        } else if code == 13 {
            Some(MaterialKind::Unknown13)
        } else if code == 14 {
            Some(MaterialKind::Unphysical)
        } else {
            None
        }
    }

    /// The first and last palette index reserved for this kind. `Absent` has
    /// no reserved indices.
    pub open spec fn canonical_range(self) -> Option<(u8, u8)> {
        match self {
            MaterialKind::Absent => None,
            MaterialKind::Glass => Some((1, 8)),
            MaterialKind::Foliage => Some((9, 24)),
            MaterialKind::Dirt => Some((25, 40)),
            MaterialKind::Rock => Some((41, 56)),
            MaterialKind::Wood => Some((57, 72)),
            MaterialKind::Masonry => Some((73, 104)),
            MaterialKind::Plaster => Some((105, 120)),
            MaterialKind::Metal => Some((121, 136)),
            MaterialKind::HeavyMetal => Some((137, 152)),
            MaterialKind::Plastic => Some((153, 168)),
            MaterialKind::HardMetal => Some((169, 176)),
            MaterialKind::HardMasonry => Some((177, 184)),
            MaterialKind::Unknown13 => Some((185, 224)),
            MaterialKind::Unphysical => Some((225, 240)),
        }
    }

    /// Whether `index` lies in the range reserved for this kind.
    pub open spec fn owns(self, index: int) -> bool {
        match self.canonical_range() {
            Some((lo, hi)) => lo <= index <= hi,
            None => false,
        }
    }

    /// The kind for which `index` is reserved; `Absent` for an index that is
    /// reserved for no kind.
    pub open spec fn reserved_for(index: int) -> MaterialKind {
        if 1 <= index <= 8 {
            MaterialKind::Glass
        } else if 9 <= index <= 24 {
            MaterialKind::Foliage
        } else if 25 <= index <= 40 {
            MaterialKind::Dirt
        } else if 41 <= index <= 56 {
            MaterialKind::Rock
        } else if 57 <= index <= 72 {
            MaterialKind::Wood
        } else if 73 <= index <= 104 {
            MaterialKind::Masonry
        } else if 105 <= index <= 120 {
            MaterialKind::Plaster
        } else if 121 <= index <= 136 {
            MaterialKind::Metal
        } else if 137 <= index <= 152 {
            MaterialKind::HeavyMetal
        } else if 153 <= index <= 168 {
            MaterialKind::Plastic
        } else if 169 <= index <= 176 {
            MaterialKind::HardMetal
        } else if 177 <= index <= 184 {
            MaterialKind::HardMasonry
        } else if 185 <= index <= 224 {
            MaterialKind::Unknown13
        } else if 225 <= index <= 240 {
            MaterialKind::Unphysical
        } else {
            MaterialKind::Absent
        }
    }

    /// The byte that stands for this kind in a scene file.
    pub fn to_byte(self) -> (code: u8)
        ensures
            code == self.code(),
    {
        match self {
            MaterialKind::Absent => 0,
            MaterialKind::Glass => 1,
            MaterialKind::Wood => 2,
            MaterialKind::Masonry => 3,
            MaterialKind::Plaster => 4,
            MaterialKind::Metal => 5,
            MaterialKind::HeavyMetal => 6,
            MaterialKind::Rock => 7,
            MaterialKind::Dirt => 8,
            MaterialKind::Foliage => 9,
            MaterialKind::Plastic => 10,
            MaterialKind::HardMetal => 11,
            MaterialKind::HardMasonry => 12,
            MaterialKind::Unknown13 => 13,
            MaterialKind::Unphysical => 14,
        }
    }

    /// The kind that `code` stands for, or `None` where it stands for none.
    pub fn from_byte(code: u8) -> (kind: Option<MaterialKind>)
        ensures
            kind == MaterialKind::of_code(code),
    {
        match code {
            0 => Some(MaterialKind::Absent),
            1 => Some(MaterialKind::Glass),
            2 => Some(MaterialKind::Wood),
            3 => Some(MaterialKind::Masonry),
            4 => Some(MaterialKind::Plaster),
            5 => Some(MaterialKind::Metal),
            6 => Some(MaterialKind::HeavyMetal),
            7 => Some(MaterialKind::Rock),
            8 => Some(MaterialKind::Dirt),
            9 => Some(MaterialKind::Foliage),
            10 => Some(MaterialKind::Plastic),
            11 => Some(MaterialKind::HardMetal),
            12 => Some(MaterialKind::HardMasonry),
            13 => Some(MaterialKind::Unknown13),
            14 => Some(MaterialKind::Unphysical),
            _ => None,
        }
    }
}

impl Default for MaterialKind {
    fn default() -> (kind: MaterialKind)
        ensures
            kind == MaterialKind::Absent,
    {
        MaterialKind::Absent
    }
}

/// Every kind and its code determine each other.
pub proof fn lemma_kind_code_round_trip(kind: MaterialKind)
    ensures
        MaterialKind::of_code(kind.code()) == Some(kind),
{
}

/// An index is reserved for a kind with reserved indices exactly when it
/// lies in that kind's range, so the ranges of two kinds never overlap.
pub proof fn lemma_reserved_for_owns(kind: MaterialKind, index: int)
    ensures
        kind.owns(index) <==> (kind != MaterialKind::Absent && MaterialKind::reserved_for(index)
            == kind),
{
}

/// The first and last palette index reserved for `material_kind`.
pub fn range_for_material_kind(material_kind: MaterialKind) -> (range: Option<[u8; 2]>)
    ensures
        match range {
            Some(r) => material_kind.canonical_range() == Some((r[0], r[1])),
            None => material_kind.canonical_range() is None,
        },
{
    match material_kind {
        MaterialKind::Glass => Some([1, 8]),
        MaterialKind::Foliage => Some([9, 24]),
        MaterialKind::Dirt => Some([25, 40]),
        MaterialKind::Rock => Some([41, 56]),
        MaterialKind::Wood => Some([57, 72]),
        MaterialKind::Masonry => Some([73, 104]),
        MaterialKind::Plaster => Some([105, 120]),
        MaterialKind::Metal => Some([121, 136]),
        MaterialKind::HeavyMetal => Some([137, 152]),
        MaterialKind::Plastic => Some([153, 168]),
        MaterialKind::HardMetal => Some([169, 176]),
        MaterialKind::HardMasonry => Some([177, 184]),
        MaterialKind::Unknown13 => Some([185, 224]),
        MaterialKind::Unphysical => Some([225, 240]),
        MaterialKind::Absent => None,
    }
}

/// The kind for which palette index `index` is reserved.
pub fn material_kind_for_index(index: u8) -> (kind: MaterialKind)
    ensures
        kind == MaterialKind::reserved_for(index as int),
{
    if index == 0 {
        MaterialKind::Absent
    } else if index <= 8 {
        MaterialKind::Glass
    } else if index <= 24 {
        MaterialKind::Foliage
    } else if index <= 40 {
        MaterialKind::Dirt
    } else if index <= 56 {
        MaterialKind::Rock
    } else if index <= 72 {
        MaterialKind::Wood
    } else if index <= 104 {
        MaterialKind::Masonry
    } else if index <= 120 {
        MaterialKind::Plaster
    } else if index <= 136 {
        MaterialKind::Metal
    } else if index <= 152 {
        MaterialKind::HeavyMetal
    } else if index <= 168 {
        MaterialKind::Plastic
    } else if index <= 176 {
        MaterialKind::HardMetal
    } else if index <= 184 {
        MaterialKind::HardMasonry
    } else if index <= 224 {
        MaterialKind::Unknown13
    } else if index <= 240 {
        MaterialKind::Unphysical
    } else {
        MaterialKind::Absent
    }
}

/// A colour with alpha, each channel a real between 0 and 1.
#[derive(Clone, Copy, Debug)]
pub struct Rgba(pub [Real32; 4]);

/// A colour without alpha.
#[derive(Clone, Copy, Debug)]
pub struct Rgb(pub [Real32; 3]);

impl Default for Rgba {
    /// Opaque black.
    fn default() -> (rgba: Rgba)
        ensures
            rgba.0@ == seq![Real32(0), Real32(0), Real32(0), Real32(0x3f80_0000)],
    {
        Rgba([Real32(0), Real32(0), Real32(0), Real32(0x3f80_0000)])
    }
}

/// A surface description held by one slot of a palette.
#[derive(Clone, Copy, Debug)]
pub struct Material {
    pub kind: MaterialKind,
    pub rgba: Rgba,
    pub reflectivity: Real32,
    pub shinyness: Real32,
    pub metalness: Real32,
    pub emission: Real32,
    /// Whether the slot may be given up for a material that has to stay.
    pub replacable: bool,
}

impl Default for Material {
    /// An opaque black material of kind `Absent` that is not replaceable.
    fn default() -> (material: Material)
        ensures
            material.kind == MaterialKind::Absent,
            !material.replacable,
            material.rgba.0@ == seq![Real32(0), Real32(0), Real32(0), Real32(0x3f80_0000)],
            material.reflectivity == Real32(0),
            material.shinyness == Real32(0),
            material.metalness == Real32(0),
            material.emission == Real32(0),
    {
        Material {
            kind: MaterialKind::Absent,
            rgba: Rgba([Real32(0), Real32(0), Real32(0), Real32(0x3f80_0000)]),
            reflectivity: Real32(0),
            shinyness: Real32(0),
            metalness: Real32(0),
            emission: Real32(0),
            replacable: false,
        }
    }
}

impl Material {
    /// Whether this material may sit at palette index `index`: a material
    /// of kind `Absent` may sit anywhere, any other only in the range of its
    /// kind.
    pub open spec fn fits(self, index: int) -> bool {
        self.kind == MaterialKind::Absent || self.kind.owns(index)
    }

    /// Whether this material may sit at palette index `index`.
    pub fn is_at_home(&self, index: u8) -> (at_home: bool)
        ensures
            at_home == self.fits(index as int),
    {
        proof {
            lemma_reserved_for_owns(self.kind, index as int);
        }
        match self.kind {
            MaterialKind::Absent => true,
            _ => material_kind_for_index(index) == self.kind,
        }
    }
}

/// A palette index as a mesher sees it: the index and whether the material
/// behind it is see-through.
#[derive(Clone, Copy, Debug)]
pub struct PaletteIndex(pub u8, pub bool);

impl PaletteIndex {
    /// The value by which neighbouring voxels are merged: the index.
    pub fn voxel_merge_value(&self) -> (value: u8)
        ensures
            value == self.0,
    {
        self.0
    }

    /// Index 0 stands for no voxel.
    pub fn is_empty(&self) -> (empty: bool)
        ensures
            empty == (self.0 == 0),
    {
        self.0 == 0
    }

    /// A voxel hides what is behind it unless its material is see-through.
    pub fn is_opaque(&self) -> (opaque: bool)
        ensures
            opaque == !self.1,
    {
        !self.1
    }
}

/// The group of materials that the voxel editor shows a palette index in.
/// The editor shows the palette in rows of eight.
#[derive(Clone, Copy, Debug, PartialEq, Eq, Structural)]
pub enum MaterialGroup {
    /// The group of index 0, which stands for no voxel.
    Empty,
    Glass,
    Grass,
    Dirt,
    Plastic,
    Wood,
    Plaster,
    Concrete,
    Brick,
    WeakMetal,
    HardMasonry,
    HardMetal,
    HeavyMetal,
    Rock,
    Unphysical,
    /// A row that no group has been given to, by its number.
    Reserved(u8),
}

impl MaterialGroup {
    /// The group of the palette index `index`.
    pub open spec fn of_index(index: u8) -> MaterialGroup {
        let row = (index - 1) / 8;
        if index == 0 {
            MaterialGroup::Empty
        } else if row == 0 {
            MaterialGroup::Glass
        } else if row == 1 || row == 2 {
            MaterialGroup::Grass
        } else if row == 3 || row == 4 {
            MaterialGroup::Dirt
        } else if row == 5 || row == 6 {
            MaterialGroup::Rock
        } else if row == 7 || row == 8 {
            MaterialGroup::Wood
        } else if row == 9 || row == 10 {
            MaterialGroup::Concrete
        } else if row == 11 || row == 12 {
            MaterialGroup::Brick
        } else if row == 13 || row == 14 {
            MaterialGroup::Plaster
        } else if row == 15 || row == 16 {
            MaterialGroup::WeakMetal
        } else if row == 17 || row == 18 {
            MaterialGroup::HeavyMetal
        } else if row == 19 || row == 20 {
            MaterialGroup::Plastic
        } else if row == 21 {
            MaterialGroup::HardMetal
        } else if row == 22 {
            MaterialGroup::HardMasonry
        } else if row == 28 || row == 29 {
            MaterialGroup::Unphysical
        } else {
            MaterialGroup::Reserved(row as u8)
        }
    }
}

impl From<PaletteIndex> for MaterialGroup {
    fn from(palette_index: PaletteIndex) -> (group: MaterialGroup) {
        if palette_index.0 == 0 {
            return MaterialGroup::Empty;
        }
        match (palette_index.0 - 1) / 8 {
            0 => MaterialGroup::Glass,
            1 | 2 => MaterialGroup::Grass,
            3 | 4 => MaterialGroup::Dirt,
            5 | 6 => MaterialGroup::Rock,
            7 | 8 => MaterialGroup::Wood,
            9 | 10 => MaterialGroup::Concrete,
            11 | 12 => MaterialGroup::Brick,
            13 | 14 => MaterialGroup::Plaster,
            15 | 16 => MaterialGroup::WeakMetal,
            17 | 18 => MaterialGroup::HeavyMetal,
            19 | 20 => MaterialGroup::Plastic,
            21 => MaterialGroup::HardMetal,
            22 => MaterialGroup::HardMasonry,
            28 | 29 => MaterialGroup::Unphysical,
            n => MaterialGroup::Reserved(n),
        }
    }
}

impl vstd::std_specs::convert::FromSpecImpl<PaletteIndex> for MaterialGroup {
    open spec fn obeys_from_spec() -> bool {
        true
    }

    open spec fn from_spec(palette_index: PaletteIndex) -> MaterialGroup {
        MaterialGroup::of_index(palette_index.0)
    }
}

impl View for MaterialKind {
    type V = MaterialKind;

    open spec fn view(&self) -> MaterialKind {
        *self
    }
}

impl Decode for MaterialKind {
    open spec fn spec_parse(bytes: Seq<u8>, at: int) -> Result<(MaterialKind, int), Failure> {
        match spec_u8(bytes, at) {
            Err(failure) => Err(failure),
            Ok((code, end)) => match MaterialKind::of_code(code) {
                Some(kind) => Ok((kind, end)),
                None => fail(ParseErrorKind::NoReprIntMatch(code as u64), at),
            },
        }
    }

    fn parse(parser: &mut Parser) -> (got: Result<MaterialKind, ParseError>) {
        let start = parser.position();
        let code = parser.read_u8()?;
        match MaterialKind::from_byte(code) {
            Some(kind) => Ok(kind),
            None => parser.fail_at(ParseErrorKind::NoReprIntMatch(code as u64), start),
        }
    }

    proof fn lemma_reads_ahead(a: Seq<u8>, b: Seq<u8>, at: int) {
        lemma_reads_u8(a, b, at);
    }
}

impl View for Rgba {
    type V = Rgba;

    open spec fn view(&self) -> Rgba {
        *self
    }
}

impl Decode for Rgba {
    open spec fn spec_parse(bytes: Seq<u8>, at: int) -> Result<(Rgba, int), Failure> {
        match spec_real32x4(bytes, at) {
            Err(failure) => Err(failure),
            Ok((channels, end)) => Ok((Rgba(channels), end)),
        }
    }

    fn parse(parser: &mut Parser) -> (got: Result<Rgba, ParseError>) {
        Ok(Rgba(parser.read_real32x4()?))
    }

    proof fn lemma_reads_ahead(a: Seq<u8>, b: Seq<u8>, at: int) {
        lemma_reads_real32x4(a, b, at);
    }
}

impl View for Rgb {
    type V = Rgb;

    open spec fn view(&self) -> Rgb {
        *self
    }
}

impl Decode for Rgb {
    open spec fn spec_parse(bytes: Seq<u8>, at: int) -> Result<(Rgb, int), Failure> {
        match spec_real32x3(bytes, at) {
            Err(failure) => Err(failure),
            Ok((channels, end)) => Ok((Rgb(channels), end)),
        }
    }

    fn parse(parser: &mut Parser) -> (got: Result<Rgb, ParseError>) {
        Ok(Rgb(parser.read_real32x3()?))
    }

    proof fn lemma_reads_ahead(a: Seq<u8>, b: Seq<u8>, at: int) {
        lemma_reads_real32x3(a, b, at);
    }
}

impl View for Material {
    type V = Material;

    open spec fn view(&self) -> Material {
        *self
    }
}

impl Decode for Material {
    open spec fn spec_parse(bytes: Seq<u8>, at: int) -> Result<(Material, int), Failure> {
        let kind = field(MaterialKind::spec_parse(bytes, at), "kind");
        let rgba = field(Rgba::spec_parse(bytes, end_of(kind)), "rgba");
        let reflectivity = field(spec_real32(bytes, end_of(rgba)), "reflectivity");
        let shinyness = field(spec_real32(bytes, end_of(reflectivity)), "shinyness");
        let metalness = field(spec_real32(bytes, end_of(shinyness)), "metalness");
        let emission = field(spec_real32(bytes, end_of(metalness)), "emission");
        let replacable = field(spec_bool(bytes, end_of(emission)), "replacable");
        if kind is Err {
            failed(kind)
        } else if rgba is Err {
            failed(rgba)
        } else if reflectivity is Err {
            failed(reflectivity)
        } else if shinyness is Err {
            failed(shinyness)
        } else if metalness is Err {
            failed(metalness)
        } else if emission is Err {
            failed(emission)
        } else if replacable is Err {
            failed(replacable)
        } else {
            Ok(
                (
                    Material {
                        kind: value_of(kind),
                        rgba: value_of(rgba),
                        reflectivity: value_of(reflectivity),
                        shinyness: value_of(shinyness),
                        metalness: value_of(metalness),
                        emission: value_of(emission),
                        replacable: value_of(replacable),
                    },
                    end_of(replacable),
                ),
            )
        }
    }

    fn parse(parser: &mut Parser) -> (got: Result<Material, ParseError>) {
        let kind = at_field(MaterialKind::parse(parser), "kind")?;
        let rgba = at_field(Rgba::parse(parser), "rgba")?;
        let reflectivity = at_field(parser.read_real32(), "reflectivity")?;
        let shinyness = at_field(parser.read_real32(), "shinyness")?;
        let metalness = at_field(parser.read_real32(), "metalness")?;
        let emission = at_field(parser.read_real32(), "emission")?;
        let replacable = at_field(parser.read_bool(), "replacable")?;
        Ok(Material { kind, rgba, reflectivity, shinyness, metalness, emission, replacable })
    }

    proof fn lemma_reads_ahead(a: Seq<u8>, b: Seq<u8>, at: int) {
        MaterialKind::lemma_reads_ahead(a, b, at);
        let kind = field(MaterialKind::spec_parse(a, at), "kind");
        if kind is Ok {
            lemma_same_later(a, b, at, end_of(kind));
            Rgba::lemma_reads_ahead(a, b, end_of(kind));
            let rgba = field(Rgba::spec_parse(a, end_of(kind)), "rgba");
            if rgba is Ok {
                lemma_same_later(a, b, at, end_of(rgba));
                lemma_reads_real32(a, b, end_of(rgba));
                let reflectivity = field(spec_real32(a, end_of(rgba)), "reflectivity");
                if reflectivity is Ok {
                    lemma_same_later(a, b, at, end_of(reflectivity));
                    lemma_reads_real32(a, b, end_of(reflectivity));
                    let shinyness = field(spec_real32(a, end_of(reflectivity)), "shinyness");
                    if shinyness is Ok {
                        lemma_same_later(a, b, at, end_of(shinyness));
                        lemma_reads_real32(a, b, end_of(shinyness));
                        let metalness = field(spec_real32(a, end_of(shinyness)), "metalness");
                        if metalness is Ok {
                            lemma_same_later(a, b, at, end_of(metalness));
                            lemma_reads_real32(a, b, end_of(metalness));
                            let emission = field(spec_real32(a, end_of(metalness)), "emission");
                            if emission is Ok {
                                lemma_same_later(a, b, at, end_of(emission));
                                lemma_reads_bool(a, b, end_of(emission));
                            }
                        }
                    }
                }
            }
        }
    }
}

} // verus!
