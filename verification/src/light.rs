//! Lights.

use crate::environment::{Sound, SoundView};
use crate::material::Rgba;
use crate::numeric::Real32;
use crate::parser::{Decode, Failure, ParseError, ParseErrorKind, Parser};
use crate::parser::{at_field, end_of, fail, failed, field, value_of};
use crate::parser::{lemma_reads_bytes, lemma_reads_real32, lemma_reads_real32x2, lemma_reads_u8};
use crate::parser::{lemma_same_later};
use crate::parser::{spec_bytes, spec_real32, spec_real32x2, spec_u8};
use crate::transform::Transform;
use vstd::prelude::*;

verus! {

/// The shape of a light.
#[derive(Clone, Copy, Debug, PartialEq, Eq, Structural)]
pub enum Kind {
    Sphere,
    Capsule,
    Cone,
    Area,
}

impl View for Kind {
    type V = Kind;

    open spec fn view(&self) -> Kind {
        *self
    }
}

impl Kind {
    /// The number that stands for this value in a scene file.
    pub open spec fn code(self) -> u8 {
        match self {
            Kind::Sphere => 1,
            Kind::Capsule => 2,
            Kind::Cone => 3,
            Kind::Area => 4,
        }
    }
}

impl Decode for Kind {
    open spec fn spec_parse(bytes: Seq<u8>, at: int) -> Result<(Kind, int), Failure> {
        match spec_u8(bytes, at) {
            Err(failure) => Err(failure),
            Ok((code, end)) => if code == 1 {
                Ok((Kind::Sphere, end))
            } else if code == 2 {
                Ok((Kind::Capsule, end))
            } else if code == 3 {
                Ok((Kind::Cone, end))
            } else if code == 4 {
                Ok((Kind::Area, end))
            } else {
                fail(ParseErrorKind::NoReprIntMatch(code as u64), at)
            },
        }
    }

    fn parse(parser: &mut Parser) -> (got: Result<Kind, ParseError>) {
        let start = parser.position();
        let code = parser.read_u8()?;
        match code {
            1 => Ok(Kind::Sphere),
            2 => Ok(Kind::Capsule),
            3 => Ok(Kind::Cone),
            4 => Ok(Kind::Area),
            _ => parser.fail_at(ParseErrorKind::NoReprIntMatch(code as u64), start),
        }
    }

    proof fn lemma_reads_ahead(a: Seq<u8>, b: Seq<u8>, at: int) {
        lemma_reads_u8(a, b, at);
    }
}

/// A light.
#[derive(Clone, Debug)]
pub struct Light {
    pub z_u8_start: u8,
    pub kind: Kind,
    pub transform: Transform,
    pub rgba: Rgba,
    pub scale: Real32,
    pub reach: Real32,
    pub size: Real32,
    pub unshadowed: Real32,
    pub cone_angle: Real32,
    pub cone_penumbra: Real32,
    pub fog_iter: Real32,
    pub fog_scale: Real32,
    pub area_size: [Real32; 2],
    pub z1_f32: Real32,
    pub z_u8_17: Vec<u8>,
    pub z2_f32: Real32,
    pub sound: Sound,
    pub glare: Real32,
}

/// What a light holds.
pub struct LightView {
    pub z_u8_start: u8,
    pub kind: Kind,
    pub transform: Transform,
    pub rgba: Rgba,
    pub scale: Real32,
    pub reach: Real32,
    pub size: Real32,
    pub unshadowed: Real32,
    pub cone_angle: Real32,
    pub cone_penumbra: Real32,
    pub fog_iter: Real32,
    pub fog_scale: Real32,
    pub area_size: [Real32; 2],
    pub z1_f32: Real32,
    pub z_u8_17: Seq<u8>,
    pub z2_f32: Real32,
    pub sound: SoundView,
    pub glare: Real32,
}

impl View for Light {
    type V = LightView;

    open spec fn view(&self) -> LightView {
        LightView {
            z_u8_start: self.z_u8_start,
            kind: self.kind,
            transform: self.transform,
            rgba: self.rgba,
            scale: self.scale,
            reach: self.reach,
            size: self.size,
            unshadowed: self.unshadowed,
            cone_angle: self.cone_angle,
            cone_penumbra: self.cone_penumbra,
            fog_iter: self.fog_iter,
            fog_scale: self.fog_scale,
            area_size: self.area_size,
            z1_f32: self.z1_f32,
            z_u8_17: self.z_u8_17@,
            z2_f32: self.z2_f32,
            sound: self.sound@,
            glare: self.glare,
        }
    }
}

/// What reading a light at `at` gives: its parts one after the other.
#[verifier::opaque]
pub open spec fn spec_light(bytes: Seq<u8>, at: int) -> Result<(LightView, int), Failure> {
    let z_u8_start = field(spec_u8(bytes, at), "z_u8_start");
    let kind = field(Kind::spec_parse(bytes, end_of(z_u8_start)), "kind");
    let transform = field(Transform::spec_parse(bytes, end_of(kind)), "transform");
    let rgba = field(Rgba::spec_parse(bytes, end_of(transform)), "rgba");
    let scale = field(spec_real32(bytes, end_of(rgba)), "scale");
    let reach = field(spec_real32(bytes, end_of(scale)), "reach");
    let size = field(spec_real32(bytes, end_of(reach)), "size");
    let unshadowed = field(spec_real32(bytes, end_of(size)), "unshadowed");
    let cone_angle = field(spec_real32(bytes, end_of(unshadowed)), "cone_angle");
    let cone_penumbra = field(spec_real32(bytes, end_of(cone_angle)), "cone_penumbra");
    let fog_iter = field(spec_real32(bytes, end_of(cone_penumbra)), "fog_iter");
    let fog_scale = field(spec_real32(bytes, end_of(fog_iter)), "fog_scale");
    let area_size = field(spec_real32x2(bytes, end_of(fog_scale)), "area_size");
    let z1_f32 = field(spec_real32(bytes, end_of(area_size)), "z1_f32");
    let z_u8_17 = field(spec_bytes(bytes, end_of(z1_f32), 13), "z_u8_17");
    let z2_f32 = field(spec_real32(bytes, end_of(z_u8_17)), "z2_f32");
    let sound = field(Sound::spec_parse(bytes, end_of(z2_f32)), "sound");
    let glare = field(spec_real32(bytes, end_of(sound)), "glare");
    if z_u8_start is Err {
        failed(z_u8_start)
    } else if kind is Err {
        failed(kind)
    } else if transform is Err {
        failed(transform)
    } else if rgba is Err {
        failed(rgba)
    } else if scale is Err {
        failed(scale)
    } else if reach is Err {
        failed(reach)
    } else if size is Err {
        failed(size)
    } else if unshadowed is Err {
        failed(unshadowed)
    } else if cone_angle is Err {
        failed(cone_angle)
    } else if cone_penumbra is Err {
        failed(cone_penumbra)
    } else if fog_iter is Err {
        failed(fog_iter)
    } else if fog_scale is Err {
        failed(fog_scale)
    } else if area_size is Err {
        failed(area_size)
    } else if z1_f32 is Err {
        failed(z1_f32)
    } else if z_u8_17 is Err {
        failed(z_u8_17)
    } else if z2_f32 is Err {
        failed(z2_f32)
    } else if sound is Err {
        failed(sound)
    } else if glare is Err {
        failed(glare)
    } else {
        Ok(
            (
                LightView {
                    z_u8_start: value_of(z_u8_start),
                    kind: value_of(kind),
                    transform: value_of(transform),
                    rgba: value_of(rgba),
                    scale: value_of(scale),
                    reach: value_of(reach),
                    size: value_of(size),
                    unshadowed: value_of(unshadowed),
                    cone_angle: value_of(cone_angle),
                    cone_penumbra: value_of(cone_penumbra),
                    fog_iter: value_of(fog_iter),
                    fog_scale: value_of(fog_scale),
                    area_size: value_of(area_size),
                    z1_f32: value_of(z1_f32),
                    z_u8_17: value_of(z_u8_17),
                    z2_f32: value_of(z2_f32),
                    sound: value_of(sound),
                    glare: value_of(glare),
                },
                end_of(glare),
            ),
        )
    }
}

impl Decode for Light {
    open spec fn spec_parse(bytes: Seq<u8>, at: int) -> Result<(LightView, int), Failure> {
        spec_light(bytes, at)
    }

    fn parse(parser: &mut Parser) -> (got: Result<Light, ParseError>) {
        proof {
            reveal(spec_light);
        }
        let z_u8_start = at_field(parser.read_u8(), "z_u8_start")?;
        let kind = at_field(Kind::parse(parser), "kind")?;
        let transform = at_field(Transform::parse(parser), "transform")?;
        let rgba = at_field(Rgba::parse(parser), "rgba")?;
        let scale = at_field(parser.read_real32(), "scale")?;
        let reach = at_field(parser.read_real32(), "reach")?;
        let size = at_field(parser.read_real32(), "size")?;
        let unshadowed = at_field(parser.read_real32(), "unshadowed")?;
        let cone_angle = at_field(parser.read_real32(), "cone_angle")?;
        let cone_penumbra = at_field(parser.read_real32(), "cone_penumbra")?;
        let fog_iter = at_field(parser.read_real32(), "fog_iter")?;
        let fog_scale = at_field(parser.read_real32(), "fog_scale")?;
        let area_size = at_field(parser.read_real32x2(), "area_size")?;
        let z1_f32 = at_field(parser.read_real32(), "z1_f32")?;
        let z_u8_17 = at_field(parser.read_bytes(13), "z_u8_17")?;
        let z2_f32 = at_field(parser.read_real32(), "z2_f32")?;
        let sound = at_field(Sound::parse(parser), "sound")?;
        let glare = at_field(parser.read_real32(), "glare")?;
        Ok(
            Light {
                z_u8_start,
                kind,
                transform,
                rgba,
                scale,
                reach,
                size,
                unshadowed,
                cone_angle,
                cone_penumbra,
                fog_iter,
                fog_scale,
                area_size,
                z1_f32,
                z_u8_17,
                z2_f32,
                sound,
                glare,
            },
        )
    }

    proof fn lemma_reads_ahead(a: Seq<u8>, b: Seq<u8>, at: int) {
        reveal(spec_light);
        lemma_reads_u8(a, b, at);
        let z_u8_start = field(spec_u8(a, at), "z_u8_start");
        let so_far = z_u8_start is Ok;
        if so_far {
            lemma_same_later(a, b, at, end_of(z_u8_start));
            Kind::lemma_reads_ahead(a, b, end_of(z_u8_start));
        }
        let kind = field(Kind::spec_parse(a, end_of(z_u8_start)), "kind");
        let so_far = so_far && kind is Ok;
        if so_far {
            lemma_same_later(a, b, at, end_of(kind));
            Transform::lemma_reads_ahead(a, b, end_of(kind));
        }
        let transform = field(Transform::spec_parse(a, end_of(kind)), "transform");
        let so_far = so_far && transform is Ok;
        if so_far {
            lemma_same_later(a, b, at, end_of(transform));
            Rgba::lemma_reads_ahead(a, b, end_of(transform));
        }
        let rgba = field(Rgba::spec_parse(a, end_of(transform)), "rgba");
        let so_far = so_far && rgba is Ok;
        if so_far {
            lemma_same_later(a, b, at, end_of(rgba));
            lemma_reads_real32(a, b, end_of(rgba));
        }
        let scale = field(spec_real32(a, end_of(rgba)), "scale");
        let so_far = so_far && scale is Ok;
        if so_far {
            lemma_same_later(a, b, at, end_of(scale));
            lemma_reads_real32(a, b, end_of(scale));
        }
        let reach = field(spec_real32(a, end_of(scale)), "reach");
        let so_far = so_far && reach is Ok;
        if so_far {
            lemma_same_later(a, b, at, end_of(reach));
            lemma_reads_real32(a, b, end_of(reach));
        }
        let size = field(spec_real32(a, end_of(reach)), "size");
        let so_far = so_far && size is Ok;
        if so_far {
            lemma_same_later(a, b, at, end_of(size));
            lemma_reads_real32(a, b, end_of(size));
        }
        let unshadowed = field(spec_real32(a, end_of(size)), "unshadowed");
        let so_far = so_far && unshadowed is Ok;
        if so_far {
            lemma_same_later(a, b, at, end_of(unshadowed));
            lemma_reads_real32(a, b, end_of(unshadowed));
        }
        let cone_angle = field(spec_real32(a, end_of(unshadowed)), "cone_angle");
        let so_far = so_far && cone_angle is Ok;
        if so_far {
            lemma_same_later(a, b, at, end_of(cone_angle));
            lemma_reads_real32(a, b, end_of(cone_angle));
        }
        let cone_penumbra = field(spec_real32(a, end_of(cone_angle)), "cone_penumbra");
        let so_far = so_far && cone_penumbra is Ok;
        if so_far {
            lemma_same_later(a, b, at, end_of(cone_penumbra));
            lemma_reads_real32(a, b, end_of(cone_penumbra));
        }
        let fog_iter = field(spec_real32(a, end_of(cone_penumbra)), "fog_iter");
        let so_far = so_far && fog_iter is Ok;
        if so_far {
            lemma_same_later(a, b, at, end_of(fog_iter));
            lemma_reads_real32(a, b, end_of(fog_iter));
        }
        let fog_scale = field(spec_real32(a, end_of(fog_iter)), "fog_scale");
        let so_far = so_far && fog_scale is Ok;
        if so_far {
            lemma_same_later(a, b, at, end_of(fog_scale));
            lemma_reads_real32x2(a, b, end_of(fog_scale));
        }
        let area_size = field(spec_real32x2(a, end_of(fog_scale)), "area_size");
        let so_far = so_far && area_size is Ok;
        if so_far {
            lemma_same_later(a, b, at, end_of(area_size));
            lemma_reads_real32(a, b, end_of(area_size));
        }
        let z1_f32 = field(spec_real32(a, end_of(area_size)), "z1_f32");
        let so_far = so_far && z1_f32 is Ok;
        if so_far {
            lemma_same_later(a, b, at, end_of(z1_f32));
            lemma_reads_bytes(a, b, end_of(z1_f32), 13);
        }
        let z_u8_17 = field(spec_bytes(a, end_of(z1_f32), 13), "z_u8_17");
        let so_far = so_far && z_u8_17 is Ok;
        if so_far {
            lemma_same_later(a, b, at, end_of(z_u8_17));
            lemma_reads_real32(a, b, end_of(z_u8_17));
        }
        let z2_f32 = field(spec_real32(a, end_of(z_u8_17)), "z2_f32");
        let so_far = so_far && z2_f32 is Ok;
        if so_far {
            lemma_same_later(a, b, at, end_of(z2_f32));
            Sound::lemma_reads_ahead(a, b, end_of(z2_f32));
        }
        let sound = field(Sound::spec_parse(a, end_of(z2_f32)), "sound");
        let so_far = so_far && sound is Ok;
        if so_far {
            lemma_same_later(a, b, at, end_of(sound));
            lemma_reads_real32(a, b, end_of(sound));
        }
    }
}

} // verus!
