//! The entities of a scene: the nodes of its tree.

use crate::joint::{Joint, JointView};
use crate::light::{Light, LightView};
use crate::numeric::Real32;
use crate::parser::{Decode, Failure, ParseError, ParseErrorKind, Parser, PathStep, Prefix};
use crate::parser::{
    advanced, agrees, at_field, at_index, end_of, fail, failed, field, prepended, seen, under,
    value_of, views,
};
use crate::parser::{ends_within, lemma_same_later, same_from};
use crate::parser::{
    lemma_reads_bool, lemma_reads_bytes, lemma_reads_counted, lemma_reads_expect, lemma_reads_i32x2,
    lemma_reads_real32, lemma_reads_real32x2, lemma_reads_real32x3, lemma_reads_string,
    lemma_reads_u32, lemma_reads_u32x2, lemma_reads_u8, lemma_reads_u8x4,
};
use crate::parser::{
    spec_bool, spec_bytes, spec_counted, spec_expect, spec_i32x2, spec_real32, spec_real32x2,
    spec_real32x3, spec_string, spec_u32, spec_u32x2, spec_u8, spec_u8x4,
};
use crate::script::{Script, ScriptView};
use crate::tags::{EntryView, Tags};
use crate::transform::{BoundaryVertex, Transform};
use crate::vehicle::{Vehicle, VehicleView};
use crate::voxels::{VoxelIter, Voxels, VoxelsView};
use vstd::prelude::*;

verus! {

/// A shape: a voxel volume with its placement and physical properties.
#[derive(Clone, Debug)]
pub struct Shape {
    pub z_u8_start: u8,
    pub transform: Transform,
    pub z_u8_4: [u8; 4],
    pub density: Real32,
    pub strength: Real32,
    pub texture_tile: u32,
    pub starting_world_position: [Real32; 3],
    pub texture_weight: Real32,
    pub z_f32: Real32,
    pub z1_u8: u8,
    pub z2_u8: u8,
    pub voxels: Voxels,
    /// The position of the shape's palette among the palettes of the scene.
    /// Nothing says that the scene has a palette there.
    pub palette: u32,
    pub voxel_scaling: Real32,
    pub z_i32_3: [i32; 2],
    pub z3_u8: u8,
}

/// What a shape holds.
pub struct ShapeView {
    pub z_u8_start: u8,
    pub transform: Transform,
    pub z_u8_4: [u8; 4],
    pub density: Real32,
    pub strength: Real32,
    pub texture_tile: u32,
    pub starting_world_position: [Real32; 3],
    pub texture_weight: Real32,
    pub z_f32: Real32,
    pub z1_u8: u8,
    pub z2_u8: u8,
    pub voxels: VoxelsView,
    pub palette: u32,
    pub voxel_scaling: Real32,
    pub z_i32_3: [i32; 2],
    pub z3_u8: u8,
}

impl View for Shape {
    type V = ShapeView;

    open spec fn view(&self) -> ShapeView {
        ShapeView {
            z_u8_start: self.z_u8_start,
            transform: self.transform,
            z_u8_4: self.z_u8_4,
            density: self.density,
            strength: self.strength,
            texture_tile: self.texture_tile,
            starting_world_position: self.starting_world_position,
            texture_weight: self.texture_weight,
            z_f32: self.z_f32,
            z1_u8: self.z1_u8,
            z2_u8: self.z2_u8,
            voxels: self.voxels@,
            palette: self.palette,
            voxel_scaling: self.voxel_scaling,
            z_i32_3: self.z_i32_3,
            z3_u8: self.z3_u8,
        }
    }
}

/// What reading a shape at `at` gives: its parts one after the other.
#[verifier::opaque]
pub open spec fn spec_shape(bytes: Seq<u8>, at: int) -> Result<(ShapeView, int), Failure> {
    let z_u8_start = field(spec_u8(bytes, at), "z_u8_start");
    let transform = field(Transform::spec_parse(bytes, end_of(z_u8_start)), "transform");
    let z_u8_4 = field(spec_u8x4(bytes, end_of(transform)), "z_u8_4");
    let density = field(spec_real32(bytes, end_of(z_u8_4)), "density");
    let strength = field(spec_real32(bytes, end_of(density)), "strength");
    let texture_tile = field(spec_u32(bytes, end_of(strength)), "texture_tile");
    let starting_world_position = field(
        spec_real32x3(bytes, end_of(texture_tile)),
        "starting_world_position",
    );
    let texture_weight = field(
        spec_real32(bytes, end_of(starting_world_position)),
        "texture_weight",
    );
    let z_f32 = field(spec_real32(bytes, end_of(texture_weight)), "z_f32");
    let z1_u8 = field(spec_u8(bytes, end_of(z_f32)), "z1_u8");
    let z2_u8 = field(spec_u8(bytes, end_of(z1_u8)), "z2_u8");
    let voxels = field(Voxels::spec_parse(bytes, end_of(z2_u8)), "voxels");
    let palette = field(spec_u32(bytes, end_of(voxels)), "palette");
    let voxel_scaling = field(spec_real32(bytes, end_of(palette)), "voxel_scaling");
    let z_i32_3 = field(spec_i32x2(bytes, end_of(voxel_scaling)), "z_i32_3");
    let z3_u8 = field(spec_u8(bytes, end_of(z_i32_3)), "z3_u8");
    if z_u8_start is Err {
        failed(z_u8_start)
    } else if transform is Err {
        failed(transform)
    } else if z_u8_4 is Err {
        failed(z_u8_4)
    } else if density is Err {
        failed(density)
    } else if strength is Err {
        failed(strength)
    } else if texture_tile is Err {
        failed(texture_tile)
    } else if starting_world_position is Err {
        failed(starting_world_position)
    } else if texture_weight is Err {
        failed(texture_weight)
    } else if z_f32 is Err {
        failed(z_f32)
    } else if z1_u8 is Err {
        failed(z1_u8)
    } else if z2_u8 is Err {
        failed(z2_u8)
    } else if voxels is Err {
        failed(voxels)
    } else if palette is Err {
        failed(palette)
    } else if voxel_scaling is Err {
        failed(voxel_scaling)
    } else if z_i32_3 is Err {
        failed(z_i32_3)
    } else if z3_u8 is Err {
        failed(z3_u8)
    } else {
        Ok(
            (
                ShapeView {
                    z_u8_start: value_of(z_u8_start),
                    transform: value_of(transform),
                    z_u8_4: value_of(z_u8_4),
                    density: value_of(density),
                    strength: value_of(strength),
                    texture_tile: value_of(texture_tile),
                    starting_world_position: value_of(starting_world_position),
                    texture_weight: value_of(texture_weight),
                    z_f32: value_of(z_f32),
                    z1_u8: value_of(z1_u8),
                    z2_u8: value_of(z2_u8),
                    voxels: value_of(voxels),
                    palette: value_of(palette),
                    voxel_scaling: value_of(voxel_scaling),
                    z_i32_3: value_of(z_i32_3),
                    z3_u8: value_of(z3_u8),
                },
                end_of(z3_u8),
            ),
        )
    }
}

impl Decode for Shape {
    open spec fn spec_parse(bytes: Seq<u8>, at: int) -> Result<(ShapeView, int), Failure> {
        spec_shape(bytes, at)
    }

    fn parse(parser: &mut Parser) -> (got: Result<Shape, ParseError>) {
        proof {
            reveal(spec_shape);
        }
        let z_u8_start = at_field(parser.read_u8(), "z_u8_start")?;
        let transform = at_field(Transform::parse(parser), "transform")?;
        let z_u8_4 = at_field(parser.read_u8x4(), "z_u8_4")?;
        let density = at_field(parser.read_real32(), "density")?;
        let strength = at_field(parser.read_real32(), "strength")?;
        let texture_tile = at_field(parser.read_u32(), "texture_tile")?;
        let starting_world_position = at_field(parser.read_real32x3(), "starting_world_position")?;
        let texture_weight = at_field(parser.read_real32(), "texture_weight")?;
        let z_f32 = at_field(parser.read_real32(), "z_f32")?;
        let z1_u8 = at_field(parser.read_u8(), "z1_u8")?;
        let z2_u8 = at_field(parser.read_u8(), "z2_u8")?;
        let voxels = at_field(Voxels::parse(parser), "voxels")?;
        let palette = at_field(parser.read_u32(), "palette")?;
        let voxel_scaling = at_field(parser.read_real32(), "voxel_scaling")?;
        let z_i32_3 = at_field(parser.read_i32x2(), "z_i32_3")?;
        let z3_u8 = at_field(parser.read_u8(), "z3_u8")?;
        Ok(
            Shape {
                z_u8_start,
                transform,
                z_u8_4,
                density,
                strength,
                texture_tile,
                starting_world_position,
                texture_weight,
                z_f32,
                z1_u8,
                z2_u8,
                voxels,
                palette,
                voxel_scaling,
                z_i32_3,
                z3_u8,
            },
        )
    }

    proof fn lemma_reads_ahead(a: Seq<u8>, b: Seq<u8>, at: int) {
        reveal(spec_shape);
        lemma_reads_u8(a, b, at);
        let z_u8_start = field(spec_u8(a, at), "z_u8_start");
        let so_far = z_u8_start is Ok;
        if so_far {
            lemma_same_later(a, b, at, end_of(z_u8_start));
            Transform::lemma_reads_ahead(a, b, end_of(z_u8_start));
        }
        let transform = field(Transform::spec_parse(a, end_of(z_u8_start)), "transform");
        let so_far = so_far && transform is Ok;
        if so_far {
            lemma_same_later(a, b, at, end_of(transform));
            lemma_reads_u8x4(a, b, end_of(transform));
        }
        let z_u8_4 = field(spec_u8x4(a, end_of(transform)), "z_u8_4");
        let so_far = so_far && z_u8_4 is Ok;
        if so_far {
            lemma_same_later(a, b, at, end_of(z_u8_4));
            lemma_reads_real32(a, b, end_of(z_u8_4));
        }
        let density = field(spec_real32(a, end_of(z_u8_4)), "density");
        let so_far = so_far && density is Ok;
        if so_far {
            lemma_same_later(a, b, at, end_of(density));
            lemma_reads_real32(a, b, end_of(density));
        }
        let strength = field(spec_real32(a, end_of(density)), "strength");
        let so_far = so_far && strength is Ok;
        if so_far {
            lemma_same_later(a, b, at, end_of(strength));
            lemma_reads_u32(a, b, end_of(strength));
        }
        let texture_tile = field(spec_u32(a, end_of(strength)), "texture_tile");
        let so_far = so_far && texture_tile is Ok;
        if so_far {
            lemma_same_later(a, b, at, end_of(texture_tile));
            lemma_reads_real32x3(a, b, end_of(texture_tile));
        }
        let starting_world_position = field(
            spec_real32x3(a, end_of(texture_tile)),
            "starting_world_position",
        );
        let so_far = so_far && starting_world_position is Ok;
        if so_far {
            lemma_same_later(a, b, at, end_of(starting_world_position));
            lemma_reads_real32(a, b, end_of(starting_world_position));
        }
        let texture_weight = field(
            spec_real32(a, end_of(starting_world_position)),
            "texture_weight",
        );
        let so_far = so_far && texture_weight is Ok;
        if so_far {
            lemma_same_later(a, b, at, end_of(texture_weight));
            lemma_reads_real32(a, b, end_of(texture_weight));
        }
        let z_f32 = field(spec_real32(a, end_of(texture_weight)), "z_f32");
        let so_far = so_far && z_f32 is Ok;
        if so_far {
            lemma_same_later(a, b, at, end_of(z_f32));
            lemma_reads_u8(a, b, end_of(z_f32));
        }
        let z1_u8 = field(spec_u8(a, end_of(z_f32)), "z1_u8");
        let so_far = so_far && z1_u8 is Ok;
        if so_far {
            lemma_same_later(a, b, at, end_of(z1_u8));
            lemma_reads_u8(a, b, end_of(z1_u8));
        }
        let z2_u8 = field(spec_u8(a, end_of(z1_u8)), "z2_u8");
        let so_far = so_far && z2_u8 is Ok;
        if so_far {
            lemma_same_later(a, b, at, end_of(z2_u8));
            Voxels::lemma_reads_ahead(a, b, end_of(z2_u8));
        }
        let voxels = field(Voxels::spec_parse(a, end_of(z2_u8)), "voxels");
        let so_far = so_far && voxels is Ok;
        if so_far {
            lemma_same_later(a, b, at, end_of(voxels));
            lemma_reads_u32(a, b, end_of(voxels));
        }
        let palette = field(spec_u32(a, end_of(voxels)), "palette");
        let so_far = so_far && palette is Ok;
        if so_far {
            lemma_same_later(a, b, at, end_of(palette));
            lemma_reads_real32(a, b, end_of(palette));
        }
        let voxel_scaling = field(spec_real32(a, end_of(palette)), "voxel_scaling");
        let so_far = so_far && voxel_scaling is Ok;
        if so_far {
            lemma_same_later(a, b, at, end_of(voxel_scaling));
            lemma_reads_i32x2(a, b, end_of(voxel_scaling));
        }
        let z_i32_3 = field(spec_i32x2(a, end_of(voxel_scaling)), "z_i32_3");
        let so_far = so_far && z_i32_3 is Ok;
        if so_far {
            lemma_same_later(a, b, at, end_of(z_i32_3));
            lemma_reads_u8(a, b, end_of(z_i32_3));
        }
    }
}

impl Shape {
    /// A walk over the non-empty voxels of the shape.
    pub fn iter_voxels(&self) -> (voxels: VoxelIter<'_>)
        ensures
            voxels.remaining() == self.voxels.solid(),
    {
        self.voxels.iter()
    }
}

/// A body: what moves as one.
#[derive(Clone, Copy, Debug)]
pub struct Body {
    pub z_u8_start: u8,
    pub transform: Transform,
    pub velocity: [Real32; 3],
    pub angular_velocity: [Real32; 3],
    pub dynamic: bool,
    pub active: bool,
    pub z_u8: u8,
}

impl View for Body {
    type V = Body;

    open spec fn view(&self) -> Body {
        *self
    }
}

/// What reading a body at `at` gives: its parts one after the other.
#[verifier::opaque]
pub open spec fn spec_body(bytes: Seq<u8>, at: int) -> Result<(Body, int), Failure> {
    let z_u8_start = field(spec_u8(bytes, at), "z_u8_start");
    let transform = field(Transform::spec_parse(bytes, end_of(z_u8_start)), "transform");
    let velocity = field(spec_real32x3(bytes, end_of(transform)), "velocity");
    let angular_velocity = field(spec_real32x3(bytes, end_of(velocity)), "angular_velocity");
    let dynamic = field(spec_bool(bytes, end_of(angular_velocity)), "dynamic");
    let active = field(spec_bool(bytes, end_of(dynamic)), "active");
    let z_u8 = field(spec_u8(bytes, end_of(active)), "z_u8");
    if z_u8_start is Err {
        failed(z_u8_start)
    } else if transform is Err {
        failed(transform)
    } else if velocity is Err {
        failed(velocity)
    } else if angular_velocity is Err {
        failed(angular_velocity)
    } else if dynamic is Err {
        failed(dynamic)
    } else if active is Err {
        failed(active)
    } else if z_u8 is Err {
        failed(z_u8)
    } else {
        Ok(
            (
                Body {
                    z_u8_start: value_of(z_u8_start),
                    transform: value_of(transform),
                    velocity: value_of(velocity),
                    angular_velocity: value_of(angular_velocity),
                    dynamic: value_of(dynamic),
                    active: value_of(active),
                    z_u8: value_of(z_u8),
                },
                end_of(z_u8),
            ),
        )
    }
}

impl Decode for Body {
    open spec fn spec_parse(bytes: Seq<u8>, at: int) -> Result<(Body, int), Failure> {
        spec_body(bytes, at)
    }

    fn parse(parser: &mut Parser) -> (got: Result<Body, ParseError>) {
        proof {
            reveal(spec_body);
        }
        let z_u8_start = at_field(parser.read_u8(), "z_u8_start")?;
        let transform = at_field(Transform::parse(parser), "transform")?;
        let velocity = at_field(parser.read_real32x3(), "velocity")?;
        let angular_velocity = at_field(parser.read_real32x3(), "angular_velocity")?;
        let dynamic = at_field(parser.read_bool(), "dynamic")?;
        let active = at_field(parser.read_bool(), "active")?;
        let z_u8 = at_field(parser.read_u8(), "z_u8")?;
        Ok(Body { z_u8_start, transform, velocity, angular_velocity, dynamic, active, z_u8 })
    }

    proof fn lemma_reads_ahead(a: Seq<u8>, b: Seq<u8>, at: int) {
        reveal(spec_body);
        lemma_reads_u8(a, b, at);
        let z_u8_start = field(spec_u8(a, at), "z_u8_start");
        let so_far = z_u8_start is Ok;
        if so_far {
            lemma_same_later(a, b, at, end_of(z_u8_start));
            Transform::lemma_reads_ahead(a, b, end_of(z_u8_start));
        }
        let transform = field(Transform::spec_parse(a, end_of(z_u8_start)), "transform");
        let so_far = so_far && transform is Ok;
        if so_far {
            lemma_same_later(a, b, at, end_of(transform));
            lemma_reads_real32x3(a, b, end_of(transform));
        }
        let velocity = field(spec_real32x3(a, end_of(transform)), "velocity");
        let so_far = so_far && velocity is Ok;
        if so_far {
            lemma_same_later(a, b, at, end_of(velocity));
            lemma_reads_real32x3(a, b, end_of(velocity));
        }
        let angular_velocity = field(spec_real32x3(a, end_of(velocity)), "angular_velocity");
        let so_far = so_far && angular_velocity is Ok;
        if so_far {
            lemma_same_later(a, b, at, end_of(angular_velocity));
            lemma_reads_bool(a, b, end_of(angular_velocity));
        }
        let dynamic = field(spec_bool(a, end_of(angular_velocity)), "dynamic");
        let so_far = so_far && dynamic is Ok;
        if so_far {
            lemma_same_later(a, b, at, end_of(dynamic));
            lemma_reads_bool(a, b, end_of(dynamic));
        }
        let active = field(spec_bool(a, end_of(dynamic)), "active");
        let so_far = so_far && active is Ok;
        if so_far {
            lemma_same_later(a, b, at, end_of(active));
            lemma_reads_u8(a, b, end_of(active));
        }
    }
}

/// A screen that shows what a script draws.
#[derive(Clone, Debug)]
pub struct Screen {
    pub z_u8_start: u8,
    pub transform: Transform,
    pub size: [Real32; 2],
    pub bulge: Real32,
    pub resolution: [u32; 2],
    pub script: String,
    pub enabled: u8,
    pub interactive: u8,
    pub emissive: Real32,
    pub fx_chromatic_aberration: Real32,
    pub fx_noise: Real32,
    pub fx_glitch: Real32,
    pub z_u8_4: [u8; 4],
}

/// What a screen holds.
pub struct ScreenView {
    pub z_u8_start: u8,
    pub transform: Transform,
    pub size: [Real32; 2],
    pub bulge: Real32,
    pub resolution: [u32; 2],
    pub script: Seq<char>,
    pub enabled: u8,
    pub interactive: u8,
    pub emissive: Real32,
    pub fx_chromatic_aberration: Real32,
    pub fx_noise: Real32,
    pub fx_glitch: Real32,
    pub z_u8_4: [u8; 4],
}

impl View for Screen {
    type V = ScreenView;

    open spec fn view(&self) -> ScreenView {
        ScreenView {
            z_u8_start: self.z_u8_start,
            transform: self.transform,
            size: self.size,
            bulge: self.bulge,
            resolution: self.resolution,
            script: self.script@,
            enabled: self.enabled,
            interactive: self.interactive,
            emissive: self.emissive,
            fx_chromatic_aberration: self.fx_chromatic_aberration,
            fx_noise: self.fx_noise,
            fx_glitch: self.fx_glitch,
            z_u8_4: self.z_u8_4,
        }
    }
}

/// What reading a screen at `at` gives: its parts one after the other.
#[verifier::opaque]
pub open spec fn spec_screen(bytes: Seq<u8>, at: int) -> Result<(ScreenView, int), Failure> {
    let z_u8_start = field(spec_u8(bytes, at), "z_u8_start");
    let transform = field(Transform::spec_parse(bytes, end_of(z_u8_start)), "transform");
    let size = field(spec_real32x2(bytes, end_of(transform)), "size");
    let bulge = field(spec_real32(bytes, end_of(size)), "bulge");
    let resolution = field(spec_u32x2(bytes, end_of(bulge)), "resolution");
    let script = field(spec_string(bytes, end_of(resolution), Prefix::U32), "script");
    let enabled = field(spec_u8(bytes, end_of(script)), "enabled");
    let interactive = field(spec_u8(bytes, end_of(enabled)), "interactive");
    let emissive = field(spec_real32(bytes, end_of(interactive)), "emissive");
    let fx_chromatic_aberration = field(
        spec_real32(bytes, end_of(emissive)),
        "fx_chromatic_aberration",
    );
    let fx_noise = field(spec_real32(bytes, end_of(fx_chromatic_aberration)), "fx_noise");
    let fx_glitch = field(spec_real32(bytes, end_of(fx_noise)), "fx_glitch");
    let z_u8_4 = field(spec_u8x4(bytes, end_of(fx_glitch)), "z_u8_4");
    if z_u8_start is Err {
        failed(z_u8_start)
    } else if transform is Err {
        failed(transform)
    } else if size is Err {
        failed(size)
    } else if bulge is Err {
        failed(bulge)
    } else if resolution is Err {
        failed(resolution)
    } else if script is Err {
        failed(script)
    } else if enabled is Err {
        failed(enabled)
    } else if interactive is Err {
        failed(interactive)
    } else if emissive is Err {
        failed(emissive)
    } else if fx_chromatic_aberration is Err {
        failed(fx_chromatic_aberration)
    } else if fx_noise is Err {
        failed(fx_noise)
    } else if fx_glitch is Err {
        failed(fx_glitch)
    } else if z_u8_4 is Err {
        failed(z_u8_4)
    } else {
        Ok(
            (
                ScreenView {
                    z_u8_start: value_of(z_u8_start),
                    transform: value_of(transform),
                    size: value_of(size),
                    bulge: value_of(bulge),
                    resolution: value_of(resolution),
                    script: value_of(script),
                    enabled: value_of(enabled),
                    interactive: value_of(interactive),
                    emissive: value_of(emissive),
                    fx_chromatic_aberration: value_of(fx_chromatic_aberration),
                    fx_noise: value_of(fx_noise),
                    fx_glitch: value_of(fx_glitch),
                    z_u8_4: value_of(z_u8_4),
                },
                end_of(z_u8_4),
            ),
        )
    }
}

impl Decode for Screen {
    open spec fn spec_parse(bytes: Seq<u8>, at: int) -> Result<(ScreenView, int), Failure> {
        spec_screen(bytes, at)
    }

    fn parse(parser: &mut Parser) -> (got: Result<Screen, ParseError>) {
        proof {
            reveal(spec_screen);
        }
        let z_u8_start = at_field(parser.read_u8(), "z_u8_start")?;
        let transform = at_field(Transform::parse(parser), "transform")?;
        let size = at_field(parser.read_real32x2(), "size")?;
        let bulge = at_field(parser.read_real32(), "bulge")?;
        let resolution = at_field(parser.read_u32x2(), "resolution")?;
        let script = at_field(parser.read_string(Prefix::U32), "script")?;
        let enabled = at_field(parser.read_u8(), "enabled")?;
        let interactive = at_field(parser.read_u8(), "interactive")?;
        let emissive = at_field(parser.read_real32(), "emissive")?;
        let fx_chromatic_aberration = at_field(parser.read_real32(), "fx_chromatic_aberration")?;
        let fx_noise = at_field(parser.read_real32(), "fx_noise")?;
        let fx_glitch = at_field(parser.read_real32(), "fx_glitch")?;
        let z_u8_4 = at_field(parser.read_u8x4(), "z_u8_4")?;
        Ok(
            Screen {
                z_u8_start,
                transform,
                size,
                bulge,
                resolution,
                script,
                enabled,
                interactive,
                emissive,
                fx_chromatic_aberration,
                fx_noise,
                fx_glitch,
                z_u8_4,
            },
        )
    }

    proof fn lemma_reads_ahead(a: Seq<u8>, b: Seq<u8>, at: int) {
        reveal(spec_screen);
        lemma_reads_u8(a, b, at);
        let z_u8_start = field(spec_u8(a, at), "z_u8_start");
        let so_far = z_u8_start is Ok;
        if so_far {
            lemma_same_later(a, b, at, end_of(z_u8_start));
            Transform::lemma_reads_ahead(a, b, end_of(z_u8_start));
        }
        let transform = field(Transform::spec_parse(a, end_of(z_u8_start)), "transform");
        let so_far = so_far && transform is Ok;
        if so_far {
            lemma_same_later(a, b, at, end_of(transform));
            lemma_reads_real32x2(a, b, end_of(transform));
        }
        let size = field(spec_real32x2(a, end_of(transform)), "size");
        let so_far = so_far && size is Ok;
        if so_far {
            lemma_same_later(a, b, at, end_of(size));
            lemma_reads_real32(a, b, end_of(size));
        }
        let bulge = field(spec_real32(a, end_of(size)), "bulge");
        let so_far = so_far && bulge is Ok;
        if so_far {
            lemma_same_later(a, b, at, end_of(bulge));
            lemma_reads_u32x2(a, b, end_of(bulge));
        }
        let resolution = field(spec_u32x2(a, end_of(bulge)), "resolution");
        let so_far = so_far && resolution is Ok;
        if so_far {
            lemma_same_later(a, b, at, end_of(resolution));
            lemma_reads_string(a, b, end_of(resolution), Prefix::U32);
        }
        let script = field(spec_string(a, end_of(resolution), Prefix::U32), "script");
        let so_far = so_far && script is Ok;
        if so_far {
            lemma_same_later(a, b, at, end_of(script));
            lemma_reads_u8(a, b, end_of(script));
        }
        let enabled = field(spec_u8(a, end_of(script)), "enabled");
        let so_far = so_far && enabled is Ok;
        if so_far {
            lemma_same_later(a, b, at, end_of(enabled));
            lemma_reads_u8(a, b, end_of(enabled));
        }
        let interactive = field(spec_u8(a, end_of(enabled)), "interactive");
        let so_far = so_far && interactive is Ok;
        if so_far {
            lemma_same_later(a, b, at, end_of(interactive));
            lemma_reads_real32(a, b, end_of(interactive));
        }
        let emissive = field(spec_real32(a, end_of(interactive)), "emissive");
        let so_far = so_far && emissive is Ok;
        if so_far {
            lemma_same_later(a, b, at, end_of(emissive));
            lemma_reads_real32(a, b, end_of(emissive));
        }
        let fx_chromatic_aberration = field(
            spec_real32(a, end_of(emissive)),
            "fx_chromatic_aberration",
        );
        let so_far = so_far && fx_chromatic_aberration is Ok;
        if so_far {
            lemma_same_later(a, b, at, end_of(fx_chromatic_aberration));
            lemma_reads_real32(a, b, end_of(fx_chromatic_aberration));
        }
        let fx_noise = field(spec_real32(a, end_of(fx_chromatic_aberration)), "fx_noise");
        let so_far = so_far && fx_noise is Ok;
        if so_far {
            lemma_same_later(a, b, at, end_of(fx_noise));
            lemma_reads_real32(a, b, end_of(fx_noise));
        }
        let fx_glitch = field(spec_real32(a, end_of(fx_noise)), "fx_glitch");
        let so_far = so_far && fx_glitch is Ok;
        if so_far {
            lemma_same_later(a, b, at, end_of(fx_glitch));
            lemma_reads_u8x4(a, b, end_of(fx_glitch));
        }
    }
}

/// A body of water.
#[derive(Clone, Debug)]
pub struct Water {
    pub z_u8_start: u8,
    pub transform: Transform,
    pub depth: Real32,
    pub wave: Real32,
    pub ripple: Real32,
    pub motion: Real32,
    pub foam: Real32,
    pub boundary_vertices: Vec<BoundaryVertex>,
}

/// What a body of water holds.
pub struct WaterView {
    pub z_u8_start: u8,
    pub transform: Transform,
    pub depth: Real32,
    pub wave: Real32,
    pub ripple: Real32,
    pub motion: Real32,
    pub foam: Real32,
    pub boundary_vertices: Seq<BoundaryVertex>,
}

impl View for Water {
    type V = WaterView;

    open spec fn view(&self) -> WaterView {
        WaterView {
            z_u8_start: self.z_u8_start,
            transform: self.transform,
            depth: self.depth,
            wave: self.wave,
            ripple: self.ripple,
            motion: self.motion,
            foam: self.foam,
            boundary_vertices: views(self.boundary_vertices@),
        }
    }
}

/// What reading a body of water at `at` gives: its parts one after the other.
#[verifier::opaque]
pub open spec fn spec_water(bytes: Seq<u8>, at: int) -> Result<(WaterView, int), Failure> {
    let z_u8_start = field(spec_u8(bytes, at), "z_u8_start");
    let transform = field(Transform::spec_parse(bytes, end_of(z_u8_start)), "transform");
    let depth = field(spec_real32(bytes, end_of(transform)), "depth");
    let wave = field(spec_real32(bytes, end_of(depth)), "wave");
    let ripple = field(spec_real32(bytes, end_of(wave)), "ripple");
    let motion = field(spec_real32(bytes, end_of(ripple)), "motion");
    let foam = field(spec_real32(bytes, end_of(motion)), "foam");
    let boundary_vertices = field(
        spec_counted::<BoundaryVertex>(bytes, end_of(foam), Prefix::U32),
        "boundary_vertices",
    );
    if z_u8_start is Err {
        failed(z_u8_start)
    } else if transform is Err {
        failed(transform)
    } else if depth is Err {
        failed(depth)
    } else if wave is Err {
        failed(wave)
    } else if ripple is Err {
        failed(ripple)
    } else if motion is Err {
        failed(motion)
    } else if foam is Err {
        failed(foam)
    } else if boundary_vertices is Err {
        failed(boundary_vertices)
    } else {
        Ok(
            (
                WaterView {
                    z_u8_start: value_of(z_u8_start),
                    transform: value_of(transform),
                    depth: value_of(depth),
                    wave: value_of(wave),
                    ripple: value_of(ripple),
                    motion: value_of(motion),
                    foam: value_of(foam),
                    boundary_vertices: value_of(boundary_vertices),
                },
                end_of(boundary_vertices),
            ),
        )
    }
}

impl Decode for Water {
    open spec fn spec_parse(bytes: Seq<u8>, at: int) -> Result<(WaterView, int), Failure> {
        spec_water(bytes, at)
    }

    fn parse(parser: &mut Parser) -> (got: Result<Water, ParseError>) {
        proof {
            reveal(spec_water);
        }
        let z_u8_start = at_field(parser.read_u8(), "z_u8_start")?;
        let transform = at_field(Transform::parse(parser), "transform")?;
        let depth = at_field(parser.read_real32(), "depth")?;
        let wave = at_field(parser.read_real32(), "wave")?;
        let ripple = at_field(parser.read_real32(), "ripple")?;
        let motion = at_field(parser.read_real32(), "motion")?;
        let foam = at_field(parser.read_real32(), "foam")?;
        let boundary_vertices = at_field(
            parser.read_counted::<BoundaryVertex>(Prefix::U32),
            "boundary_vertices",
        )?;
        Ok(Water { z_u8_start, transform, depth, wave, ripple, motion, foam, boundary_vertices })
    }

    proof fn lemma_reads_ahead(a: Seq<u8>, b: Seq<u8>, at: int) {
        reveal(spec_water);
        lemma_reads_u8(a, b, at);
        let z_u8_start = field(spec_u8(a, at), "z_u8_start");
        let so_far = z_u8_start is Ok;
        if so_far {
            lemma_same_later(a, b, at, end_of(z_u8_start));
            Transform::lemma_reads_ahead(a, b, end_of(z_u8_start));
        }
        let transform = field(Transform::spec_parse(a, end_of(z_u8_start)), "transform");
        let so_far = so_far && transform is Ok;
        if so_far {
            lemma_same_later(a, b, at, end_of(transform));
            lemma_reads_real32(a, b, end_of(transform));
        }
        let depth = field(spec_real32(a, end_of(transform)), "depth");
        let so_far = so_far && depth is Ok;
        if so_far {
            lemma_same_later(a, b, at, end_of(depth));
            lemma_reads_real32(a, b, end_of(depth));
        }
        let wave = field(spec_real32(a, end_of(depth)), "wave");
        let so_far = so_far && wave is Ok;
        if so_far {
            lemma_same_later(a, b, at, end_of(wave));
            lemma_reads_real32(a, b, end_of(wave));
        }
        let ripple = field(spec_real32(a, end_of(wave)), "ripple");
        let so_far = so_far && ripple is Ok;
        if so_far {
            lemma_same_later(a, b, at, end_of(ripple));
            lemma_reads_real32(a, b, end_of(ripple));
        }
        let motion = field(spec_real32(a, end_of(ripple)), "motion");
        let so_far = so_far && motion is Ok;
        if so_far {
            lemma_same_later(a, b, at, end_of(motion));
            lemma_reads_real32(a, b, end_of(motion));
        }
        let foam = field(spec_real32(a, end_of(motion)), "foam");
        let so_far = so_far && foam is Ok;
        if so_far {
            lemma_same_later(a, b, at, end_of(foam));
            lemma_reads_counted::<BoundaryVertex>(a, b, end_of(foam), Prefix::U32);
        }
    }
}

/// The form of the space that a trigger watches.
#[derive(Clone, Copy, Debug, PartialEq, Eq, Structural)]
pub enum TriggerGeometryKind {
    Sphere,
    Box,
    Polygon,
}

impl View for TriggerGeometryKind {
    type V = TriggerGeometryKind;

    open spec fn view(&self) -> TriggerGeometryKind {
        *self
    }
}

impl TriggerGeometryKind {
    /// The number that stands for this value in a scene file.
    pub open spec fn code(self) -> u32 {
        match self {
            TriggerGeometryKind::Sphere => 1,
            TriggerGeometryKind::Box => 2,
            TriggerGeometryKind::Polygon => 3,
        }
    }
}

impl Decode for TriggerGeometryKind {
    open spec fn spec_parse(bytes: Seq<u8>, at: int) -> Result<
        (TriggerGeometryKind, int),
        Failure,
    > {
        match spec_u32(bytes, at) {
            Err(failure) => Err(failure),
            Ok((code, end)) => if code == 1 {
                Ok((TriggerGeometryKind::Sphere, end))
            } else if code == 2 {
                Ok((TriggerGeometryKind::Box, end))
            } else if code == 3 {
                Ok((TriggerGeometryKind::Polygon, end))
            } else {
                fail(ParseErrorKind::NoReprIntMatch(code as u64), at)
            },
        }
    }

    fn parse(parser: &mut Parser) -> (got: Result<TriggerGeometryKind, ParseError>) {
        let start = parser.position();
        let code = parser.read_u32()?;
        match code {
            1 => Ok(TriggerGeometryKind::Sphere),
            2 => Ok(TriggerGeometryKind::Box),
            3 => Ok(TriggerGeometryKind::Polygon),
            _ => parser.fail_at(ParseErrorKind::NoReprIntMatch(code as u64), start),
        }
    }

    proof fn lemma_reads_ahead(a: Seq<u8>, b: Seq<u8>, at: int) {
        lemma_reads_u32(a, b, at);
    }
}

/// The sound of a trigger.
#[derive(Clone, Debug)]
pub struct TriggerSound {
    pub path: String,
    pub ramp: Real32,
    pub byte: u8,
    pub volume: Real32,
}

/// What a trigger sound holds.
pub struct TriggerSoundView {
    pub path: Seq<char>,
    pub ramp: Real32,
    pub byte: u8,
    pub volume: Real32,
}

impl View for TriggerSound {
    type V = TriggerSoundView;

    open spec fn view(&self) -> TriggerSoundView {
        TriggerSoundView {
            path: self.path@,
            ramp: self.ramp,
            byte: self.byte,
            volume: self.volume,
        }
    }
}

/// What reading a trigger sound at `at` gives: its parts one after the other.
#[verifier::opaque]
pub open spec fn spec_trigger_sound(bytes: Seq<u8>, at: int) -> Result<
    (TriggerSoundView, int),
    Failure,
> {
    let path = field(spec_string(bytes, at, Prefix::U32), "path");
    let ramp = field(spec_real32(bytes, end_of(path)), "ramp");
    let byte = field(spec_u8(bytes, end_of(ramp)), "byte");
    let volume = field(spec_real32(bytes, end_of(byte)), "volume");
    if path is Err {
        failed(path)
    } else if ramp is Err {
        failed(ramp)
    } else if byte is Err {
        failed(byte)
    } else if volume is Err {
        failed(volume)
    } else {
        Ok(
            (
                TriggerSoundView {
                    path: value_of(path),
                    ramp: value_of(ramp),
                    byte: value_of(byte),
                    volume: value_of(volume),
                },
                end_of(volume),
            ),
        )
    }
}

impl Decode for TriggerSound {
    open spec fn spec_parse(bytes: Seq<u8>, at: int) -> Result<(TriggerSoundView, int), Failure> {
        spec_trigger_sound(bytes, at)
    }

    fn parse(parser: &mut Parser) -> (got: Result<TriggerSound, ParseError>) {
        proof {
            reveal(spec_trigger_sound);
        }
        let path = at_field(parser.read_string(Prefix::U32), "path")?;
        let ramp = at_field(parser.read_real32(), "ramp")?;
        let byte = at_field(parser.read_u8(), "byte")?;
        let volume = at_field(parser.read_real32(), "volume")?;
        Ok(TriggerSound { path, ramp, byte, volume })
    }

    proof fn lemma_reads_ahead(a: Seq<u8>, b: Seq<u8>, at: int) {
        reveal(spec_trigger_sound);
        lemma_reads_string(a, b, at, Prefix::U32);
        let path = field(spec_string(a, at, Prefix::U32), "path");
        let so_far = path is Ok;
        if so_far {
            lemma_same_later(a, b, at, end_of(path));
            lemma_reads_real32(a, b, end_of(path));
        }
        let ramp = field(spec_real32(a, end_of(path)), "ramp");
        let so_far = so_far && ramp is Ok;
        if so_far {
            lemma_same_later(a, b, at, end_of(ramp));
            lemma_reads_u8(a, b, end_of(ramp));
        }
        let byte = field(spec_u8(a, end_of(ramp)), "byte");
        let so_far = so_far && byte is Ok;
        if so_far {
            lemma_same_later(a, b, at, end_of(byte));
            lemma_reads_real32(a, b, end_of(byte));
        }
    }
}

/// A trigger: a space that is watched for what enters it.
#[derive(Clone, Debug)]
pub struct Trigger {
    pub z_u8_start: u8,
    pub transform: Transform,
    pub type_: TriggerGeometryKind,
    pub sphere_radius: Real32,
    pub half_cuboid: [Real32; 3],
    pub polygon_extrusion: Real32,
    pub polygon_vertices: Vec<BoundaryVertex>,
    pub sound: TriggerSound,
}

/// What a trigger holds.
pub struct TriggerView {
    pub z_u8_start: u8,
    pub transform: Transform,
    pub type_: TriggerGeometryKind,
    pub sphere_radius: Real32,
    pub half_cuboid: [Real32; 3],
    pub polygon_extrusion: Real32,
    pub polygon_vertices: Seq<BoundaryVertex>,
    pub sound: TriggerSoundView,
}

impl View for Trigger {
    type V = TriggerView;

    open spec fn view(&self) -> TriggerView {
        TriggerView {
            z_u8_start: self.z_u8_start,
            transform: self.transform,
            type_: self.type_,
            sphere_radius: self.sphere_radius,
            half_cuboid: self.half_cuboid,
            polygon_extrusion: self.polygon_extrusion,
            polygon_vertices: views(self.polygon_vertices@),
            sound: self.sound@,
        }
    }
}

/// What reading a trigger at `at` gives: its parts one after the other.
#[verifier::opaque]
pub open spec fn spec_trigger(bytes: Seq<u8>, at: int) -> Result<(TriggerView, int), Failure> {
    let z_u8_start = field(spec_u8(bytes, at), "z_u8_start");
    let transform = field(Transform::spec_parse(bytes, end_of(z_u8_start)), "transform");
    let type_ = field(TriggerGeometryKind::spec_parse(bytes, end_of(transform)), "type_");
    let sphere_radius = field(spec_real32(bytes, end_of(type_)), "sphere_radius");
    let half_cuboid = field(spec_real32x3(bytes, end_of(sphere_radius)), "half_cuboid");
    let polygon_extrusion = field(spec_real32(bytes, end_of(half_cuboid)), "polygon_extrusion");
    let polygon_vertices = field(
        spec_counted::<BoundaryVertex>(bytes, end_of(polygon_extrusion), Prefix::U32),
        "polygon_vertices",
    );
    let sound = field(TriggerSound::spec_parse(bytes, end_of(polygon_vertices)), "sound");
    if z_u8_start is Err {
        failed(z_u8_start)
    } else if transform is Err {
        failed(transform)
    } else if type_ is Err {
        failed(type_)
    } else if sphere_radius is Err {
        failed(sphere_radius)
    } else if half_cuboid is Err {
        failed(half_cuboid)
    } else if polygon_extrusion is Err {
        failed(polygon_extrusion)
    } else if polygon_vertices is Err {
        failed(polygon_vertices)
    } else if sound is Err {
        failed(sound)
    } else {
        Ok(
            (
                TriggerView {
                    z_u8_start: value_of(z_u8_start),
                    transform: value_of(transform),
                    type_: value_of(type_),
                    sphere_radius: value_of(sphere_radius),
                    half_cuboid: value_of(half_cuboid),
                    polygon_extrusion: value_of(polygon_extrusion),
                    polygon_vertices: value_of(polygon_vertices),
                    sound: value_of(sound),
                },
                end_of(sound),
            ),
        )
    }
}

impl Decode for Trigger {
    open spec fn spec_parse(bytes: Seq<u8>, at: int) -> Result<(TriggerView, int), Failure> {
        spec_trigger(bytes, at)
    }

    fn parse(parser: &mut Parser) -> (got: Result<Trigger, ParseError>) {
        proof {
            reveal(spec_trigger);
        }
        let z_u8_start = at_field(parser.read_u8(), "z_u8_start")?;
        let transform = at_field(Transform::parse(parser), "transform")?;
        let type_ = at_field(TriggerGeometryKind::parse(parser), "type_")?;
        let sphere_radius = at_field(parser.read_real32(), "sphere_radius")?;
        let half_cuboid = at_field(parser.read_real32x3(), "half_cuboid")?;
        let polygon_extrusion = at_field(parser.read_real32(), "polygon_extrusion")?;
        let polygon_vertices = at_field(
            parser.read_counted::<BoundaryVertex>(Prefix::U32),
            "polygon_vertices",
        )?;
        let sound = at_field(TriggerSound::parse(parser), "sound")?;
        Ok(
            Trigger {
                z_u8_start,
                transform,
                type_,
                sphere_radius,
                half_cuboid,
                polygon_extrusion,
                polygon_vertices,
                sound,
            },
        )
    }

    proof fn lemma_reads_ahead(a: Seq<u8>, b: Seq<u8>, at: int) {
        reveal(spec_trigger);
        lemma_reads_u8(a, b, at);
        let z_u8_start = field(spec_u8(a, at), "z_u8_start");
        let so_far = z_u8_start is Ok;
        if so_far {
            lemma_same_later(a, b, at, end_of(z_u8_start));
            Transform::lemma_reads_ahead(a, b, end_of(z_u8_start));
        }
        let transform = field(Transform::spec_parse(a, end_of(z_u8_start)), "transform");
        let so_far = so_far && transform is Ok;
        if so_far {
            lemma_same_later(a, b, at, end_of(transform));
            TriggerGeometryKind::lemma_reads_ahead(a, b, end_of(transform));
        }
        let type_ = field(TriggerGeometryKind::spec_parse(a, end_of(transform)), "type_");
        let so_far = so_far && type_ is Ok;
        if so_far {
            lemma_same_later(a, b, at, end_of(type_));
            lemma_reads_real32(a, b, end_of(type_));
        }
        let sphere_radius = field(spec_real32(a, end_of(type_)), "sphere_radius");
        let so_far = so_far && sphere_radius is Ok;
        if so_far {
            lemma_same_later(a, b, at, end_of(sphere_radius));
            lemma_reads_real32x3(a, b, end_of(sphere_radius));
        }
        let half_cuboid = field(spec_real32x3(a, end_of(sphere_radius)), "half_cuboid");
        let so_far = so_far && half_cuboid is Ok;
        if so_far {
            lemma_same_later(a, b, at, end_of(half_cuboid));
            lemma_reads_real32(a, b, end_of(half_cuboid));
        }
        let polygon_extrusion = field(spec_real32(a, end_of(half_cuboid)), "polygon_extrusion");
        let so_far = so_far && polygon_extrusion is Ok;
        if so_far {
            lemma_same_later(a, b, at, end_of(polygon_extrusion));
            lemma_reads_counted::<BoundaryVertex>(a, b, end_of(polygon_extrusion), Prefix::U32);
        }
        let polygon_vertices = field(
            spec_counted::<BoundaryVertex>(a, end_of(polygon_extrusion), Prefix::U32),
            "polygon_vertices",
        );
        let so_far = so_far && polygon_vertices is Ok;
        if so_far {
            lemma_same_later(a, b, at, end_of(polygon_vertices));
            TriggerSound::lemma_reads_ahead(a, b, end_of(polygon_vertices));
        }
    }
}

/// A named place.
#[derive(Clone, Copy, Debug)]
pub struct Location {
    pub z_u8_start: u8,
    pub transform: Transform,
}

impl View for Location {
    type V = Location;

    open spec fn view(&self) -> Location {
        *self
    }
}

/// What reading a location at `at` gives: its parts one after the other.
#[verifier::opaque]
pub open spec fn spec_location(bytes: Seq<u8>, at: int) -> Result<(Location, int), Failure> {
    let z_u8_start = field(spec_u8(bytes, at), "z_u8_start");
    let transform = field(Transform::spec_parse(bytes, end_of(z_u8_start)), "transform");
    if z_u8_start is Err {
        failed(z_u8_start)
    } else if transform is Err {
        failed(transform)
    } else {
        Ok(
            (
                Location {
                    z_u8_start: value_of(z_u8_start),
                    transform: value_of(transform),
                },
                end_of(transform),
            ),
        )
    }
}

impl Decode for Location {
    open spec fn spec_parse(bytes: Seq<u8>, at: int) -> Result<(Location, int), Failure> {
        spec_location(bytes, at)
    }

    fn parse(parser: &mut Parser) -> (got: Result<Location, ParseError>) {
        proof {
            reveal(spec_location);
        }
        let z_u8_start = at_field(parser.read_u8(), "z_u8_start")?;
        let transform = at_field(Transform::parse(parser), "transform")?;
        Ok(Location { z_u8_start, transform })
    }

    proof fn lemma_reads_ahead(a: Seq<u8>, b: Seq<u8>, at: int) {
        reveal(spec_location);
        lemma_reads_u8(a, b, at);
        let z_u8_start = field(spec_u8(a, at), "z_u8_start");
        let so_far = z_u8_start is Ok;
        if so_far {
            lemma_same_later(a, b, at, end_of(z_u8_start));
            Transform::lemma_reads_ahead(a, b, end_of(z_u8_start));
        }
    }
}

/// A wheel of a vehicle.
#[derive(Clone, Debug)]
pub struct Wheel {
    pub z_u8_start: u8,
    pub z_u8_108: Vec<u8>,
}

/// What a wheel holds.
pub struct WheelView {
    pub z_u8_start: u8,
    pub z_u8_108: Seq<u8>,
}

impl View for Wheel {
    type V = WheelView;

    open spec fn view(&self) -> WheelView {
        WheelView {
            z_u8_start: self.z_u8_start,
            z_u8_108: self.z_u8_108@,
        }
    }
}

/// What reading a wheel at `at` gives: its parts one after the other.
#[verifier::opaque]
pub open spec fn spec_wheel(bytes: Seq<u8>, at: int) -> Result<(WheelView, int), Failure> {
    let z_u8_start = field(spec_u8(bytes, at), "z_u8_start");
    let z_u8_108 = field(spec_bytes(bytes, end_of(z_u8_start), 108), "z_u8_108");
    if z_u8_start is Err {
        failed(z_u8_start)
    } else if z_u8_108 is Err {
        failed(z_u8_108)
    } else {
        Ok(
            (
                WheelView {
                    z_u8_start: value_of(z_u8_start),
                    z_u8_108: value_of(z_u8_108),
                },
                end_of(z_u8_108),
            ),
        )
    }
}

impl Decode for Wheel {
    open spec fn spec_parse(bytes: Seq<u8>, at: int) -> Result<(WheelView, int), Failure> {
        spec_wheel(bytes, at)
    }

    fn parse(parser: &mut Parser) -> (got: Result<Wheel, ParseError>) {
        proof {
            reveal(spec_wheel);
        }
        let z_u8_start = at_field(parser.read_u8(), "z_u8_start")?;
        let z_u8_108 = at_field(parser.read_bytes(108), "z_u8_108")?;
        Ok(Wheel { z_u8_start, z_u8_108 })
    }

    proof fn lemma_reads_ahead(a: Seq<u8>, b: Seq<u8>, at: int) {
        reveal(spec_wheel);
        lemma_reads_u8(a, b, at);
        let z_u8_start = field(spec_u8(a, at), "z_u8_start");
        let so_far = z_u8_start is Ok;
        if so_far {
            lemma_same_later(a, b, at, end_of(z_u8_start));
            lemma_reads_bytes(a, b, end_of(z_u8_start), 108);
        }
    }
}

/// What an entity is, without what it holds.
#[derive(Clone, Copy, Debug, PartialEq, Eq, Structural)]
pub enum EntityKindVariants {
    Shape,
    Body,
    Screen,
    Water,
    Vehicle,
    Trigger,
    Location,
    Wheel,
    Joint,
    Script,
    Light,
}

impl EntityKindVariants {
    /// The kind that the byte `byte` of a scene file stands for, if any.
    pub open spec fn of_byte(byte: u8) -> Option<EntityKindVariants> {
        if byte == 2 {
            Some(EntityKindVariants::Shape)
        } else if byte == 1 {
            Some(EntityKindVariants::Body)
        } else if byte == 10 {
            Some(EntityKindVariants::Screen)
        } else if byte == 5 {
            Some(EntityKindVariants::Water)
        } else if byte == 8 {
            Some(EntityKindVariants::Vehicle)
        } else if byte == 11 {
            Some(EntityKindVariants::Trigger)
        } else if byte == 4 {
            Some(EntityKindVariants::Location)
        } else if byte == 9 {
            Some(EntityKindVariants::Wheel)
        } else if byte == 7 {
            Some(EntityKindVariants::Joint)
        } else if byte == 12 {
            Some(EntityKindVariants::Script)
        } else if byte == 3 {
            Some(EntityKindVariants::Light)
        } else {
            None
        }
    }

    /// The kind that the byte `byte` of a scene file stands for, or `None`
    /// where it stands for none.
    pub fn from_byte(byte: u8) -> (kind: Option<EntityKindVariants>)
        ensures
            kind == EntityKindVariants::of_byte(byte),
    {
        match byte {
            2 => Some(EntityKindVariants::Shape),
            1 => Some(EntityKindVariants::Body),
            10 => Some(EntityKindVariants::Screen),
            5 => Some(EntityKindVariants::Water),
            8 => Some(EntityKindVariants::Vehicle),
            11 => Some(EntityKindVariants::Trigger),
            4 => Some(EntityKindVariants::Location),
            9 => Some(EntityKindVariants::Wheel),
            7 => Some(EntityKindVariants::Joint),
            12 => Some(EntityKindVariants::Script),
            3 => Some(EntityKindVariants::Light),
            _ => None,
        }
    }
}

/// What an entity is, with what it holds as that.
#[derive(Debug)]
pub enum EntityKind {
    Shape(Shape),
    Body(Body),
    Screen(Screen),
    Water(Water),
    Vehicle(Vehicle),
    Trigger(Trigger),
    Location(Location),
    Wheel(Wheel),
    Joint(Joint),
    Script(Script),
    Light(Light),
}

/// What an entity holds as what it is.
pub enum EntityKindView {
    Shape(ShapeView),
    Body(Body),
    Screen(ScreenView),
    Water(WaterView),
    Vehicle(VehicleView),
    Trigger(TriggerView),
    Location(Location),
    Wheel(WheelView),
    Joint(JointView),
    Script(ScriptView),
    Light(LightView),
}

impl View for EntityKind {
    type V = EntityKindView;

    open spec fn view(&self) -> EntityKindView {
        match self {
            EntityKind::Shape(inner) => EntityKindView::Shape(inner@),
            EntityKind::Body(inner) => EntityKindView::Body(inner@),
            EntityKind::Screen(inner) => EntityKindView::Screen(inner@),
            EntityKind::Water(inner) => EntityKindView::Water(inner@),
            EntityKind::Vehicle(inner) => EntityKindView::Vehicle(inner@),
            EntityKind::Trigger(inner) => EntityKindView::Trigger(inner@),
            EntityKind::Location(inner) => EntityKindView::Location(inner@),
            EntityKind::Wheel(inner) => EntityKindView::Wheel(inner@),
            EntityKind::Joint(inner) => EntityKindView::Joint(inner@),
            EntityKind::Script(inner) => EntityKindView::Script(inner@),
            EntityKind::Light(inner) => EntityKindView::Light(inner@),
        }
    }
}

/// What an entity of the kind that `kind_byte` stands for holds at `at`. A
/// byte that stands for no kind is a failure at `kind_at`, where the byte
/// was read.
pub open spec fn spec_entity_kind(bytes: Seq<u8>, at: int, kind_byte: u8, kind_at: int) -> Result<
    (EntityKindView, int),
    Failure,
> {
    match EntityKindVariants::of_byte(kind_byte) {
        None => fail(ParseErrorKind::UnknownEntityKind(kind_byte), kind_at),
        Some(EntityKindVariants::Shape) => match Shape::spec_parse(bytes, at) {
            Ok((inner, end)) => Ok((EntityKindView::Shape(inner), end)),
            Err(failure) => Err(failure),
        },
        Some(EntityKindVariants::Body) => match Body::spec_parse(bytes, at) {
            Ok((inner, end)) => Ok((EntityKindView::Body(inner), end)),
            Err(failure) => Err(failure),
        },
        Some(EntityKindVariants::Screen) => match Screen::spec_parse(bytes, at) {
            Ok((inner, end)) => Ok((EntityKindView::Screen(inner), end)),
            Err(failure) => Err(failure),
        },
        Some(EntityKindVariants::Water) => match Water::spec_parse(bytes, at) {
            Ok((inner, end)) => Ok((EntityKindView::Water(inner), end)),
            Err(failure) => Err(failure),
        },
        Some(EntityKindVariants::Vehicle) => match Vehicle::spec_parse(bytes, at) {
            Ok((inner, end)) => Ok((EntityKindView::Vehicle(inner), end)),
            Err(failure) => Err(failure),
        },
        Some(EntityKindVariants::Trigger) => match Trigger::spec_parse(bytes, at) {
            Ok((inner, end)) => Ok((EntityKindView::Trigger(inner), end)),
            Err(failure) => Err(failure),
        },
        Some(EntityKindVariants::Location) => match Location::spec_parse(bytes, at) {
            Ok((inner, end)) => Ok((EntityKindView::Location(inner), end)),
            Err(failure) => Err(failure),
        },
        Some(EntityKindVariants::Wheel) => match Wheel::spec_parse(bytes, at) {
            Ok((inner, end)) => Ok((EntityKindView::Wheel(inner), end)),
            Err(failure) => Err(failure),
        },
        Some(EntityKindVariants::Joint) => match Joint::spec_parse(bytes, at) {
            Ok((inner, end)) => Ok((EntityKindView::Joint(inner), end)),
            Err(failure) => Err(failure),
        },
        Some(EntityKindVariants::Script) => match Script::spec_parse(bytes, at) {
            Ok((inner, end)) => Ok((EntityKindView::Script(inner), end)),
            Err(failure) => Err(failure),
        },
        Some(EntityKindVariants::Light) => match Light::spec_parse(bytes, at) {
            Ok((inner, end)) => Ok((EntityKindView::Light(inner), end)),
            Err(failure) => Err(failure),
        },
    }
}

/// Reading what an entity holds as what it is looks at the bytes from
/// `at` on and at no others.
pub proof fn lemma_reads_entity_kind(a: Seq<u8>, b: Seq<u8>, at: int, kind_byte: u8, kind_at: int)
    requires
        same_from(a, b, at),
    ensures
        spec_entity_kind(a, at, kind_byte, kind_at) == spec_entity_kind(
            b,
            at,
            kind_byte,
            kind_at,
        ),
        ends_within(spec_entity_kind(a, at, kind_byte, kind_at), a, at),
{
    Shape::lemma_reads_ahead(a, b, at);
    Body::lemma_reads_ahead(a, b, at);
    Screen::lemma_reads_ahead(a, b, at);
    Water::lemma_reads_ahead(a, b, at);
    Vehicle::lemma_reads_ahead(a, b, at);
    Trigger::lemma_reads_ahead(a, b, at);
    Location::lemma_reads_ahead(a, b, at);
    Wheel::lemma_reads_ahead(a, b, at);
    Joint::lemma_reads_ahead(a, b, at);
    Script::lemma_reads_ahead(a, b, at);
    Light::lemma_reads_ahead(a, b, at);
}

/// Reads what an entity of the kind that `kind_byte` stands for holds.
/// `kind_at` is where the byte was read.
pub fn parse_entity_kind(parser: &mut Parser, kind_byte: u8, kind_at: usize) -> (got: Result<
    EntityKind,
    ParseError,
>)
    requires
        kind_at <= old(parser).cursor(),
    ensures
        final(parser).input() == old(parser).input(),
        kind_at <= final(parser).cursor(),
        match seen(got) {
            Ok(kind) => spec_entity_kind(
                old(parser).input(),
                old(parser).cursor(),
                kind_byte,
                kind_at as int,
            ) == Ok::<(EntityKindView, int), Failure>((kind, final(parser).cursor()))
                && old(parser).cursor() <= final(parser).cursor(),
            Err(failure) => spec_entity_kind(
                old(parser).input(),
                old(parser).cursor(),
                kind_byte,
                kind_at as int,
            ) == Err::<(EntityKindView, int), Failure>(failure) && final(parser).cursor()
                == failure.offset,
        },
{
    match EntityKindVariants::from_byte(kind_byte) {
        None => parser.fail_at(ParseErrorKind::UnknownEntityKind(kind_byte), kind_at),
        Some(EntityKindVariants::Shape) => Ok(EntityKind::Shape(Shape::parse(parser)?)),
        Some(EntityKindVariants::Body) => Ok(EntityKind::Body(Body::parse(parser)?)),
        Some(EntityKindVariants::Screen) => Ok(EntityKind::Screen(Screen::parse(parser)?)),
        Some(EntityKindVariants::Water) => Ok(EntityKind::Water(Water::parse(parser)?)),
        Some(EntityKindVariants::Vehicle) => Ok(EntityKind::Vehicle(Vehicle::parse(parser)?)),
        Some(EntityKindVariants::Trigger) => Ok(EntityKind::Trigger(Trigger::parse(parser)?)),
        Some(EntityKindVariants::Location) => Ok(EntityKind::Location(Location::parse(parser)?)),
        Some(EntityKindVariants::Wheel) => Ok(EntityKind::Wheel(Wheel::parse(parser)?)),
        Some(EntityKindVariants::Joint) => Ok(EntityKind::Joint(Joint::parse(parser)?)),
        Some(EntityKindVariants::Script) => Ok(EntityKind::Script(Script::parse(parser)?)),
        Some(EntityKindVariants::Light) => Ok(EntityKind::Light(Light::parse(parser)?)),
    }
}

impl EntityKind {
    /// What the entity is, without what it holds.
    pub fn variant(&self) -> (variant: EntityKindVariants)
        ensures
            variant == match self {
                EntityKind::Shape(_) => EntityKindVariants::Shape,
                EntityKind::Body(_) => EntityKindVariants::Body,
                EntityKind::Screen(_) => EntityKindVariants::Screen,
                EntityKind::Water(_) => EntityKindVariants::Water,
                EntityKind::Vehicle(_) => EntityKindVariants::Vehicle,
                EntityKind::Trigger(_) => EntityKindVariants::Trigger,
                EntityKind::Location(_) => EntityKindVariants::Location,
                EntityKind::Wheel(_) => EntityKindVariants::Wheel,
                EntityKind::Joint(_) => EntityKindVariants::Joint,
                EntityKind::Script(_) => EntityKindVariants::Script,
                EntityKind::Light(_) => EntityKindVariants::Light,
            },
    {
        match self {
            EntityKind::Shape(_) => EntityKindVariants::Shape,
            EntityKind::Body(_) => EntityKindVariants::Body,
            EntityKind::Screen(_) => EntityKindVariants::Screen,
            EntityKind::Water(_) => EntityKindVariants::Water,
            EntityKind::Vehicle(_) => EntityKindVariants::Vehicle,
            EntityKind::Trigger(_) => EntityKindVariants::Trigger,
            EntityKind::Location(_) => EntityKindVariants::Location,
            EntityKind::Wheel(_) => EntityKindVariants::Wheel,
            EntityKind::Joint(_) => EntityKindVariants::Joint,
            EntityKind::Script(_) => EntityKindVariants::Script,
            EntityKind::Light(_) => EntityKindVariants::Light,
        }
    }

    /// The placement of the entity, where its kind has one: a joint, a
    /// wheel and a script have none.
    pub open spec fn placement(&self) -> Option<&Transform> {
        match self {
            EntityKind::Shape(shape) => Some(&shape.transform),
            EntityKind::Body(body) => Some(&body.transform),
            EntityKind::Screen(screen) => Some(&screen.transform),
            EntityKind::Water(water) => Some(&water.transform),
            EntityKind::Vehicle(vehicle) => Some(&vehicle.transform),
            EntityKind::Trigger(trigger) => Some(&trigger.transform),
            EntityKind::Location(location) => Some(&location.transform),
            EntityKind::Light(light) => Some(&light.transform),
            EntityKind::Joint(_) | EntityKind::Wheel(_) | EntityKind::Script(_) => None,
        }
    }

    /// The placement of the entity, where its kind has one.
    pub fn transform(&self) -> (transform: Option<&Transform>)
        ensures
            transform == self.placement(),
    {
        match self {
            EntityKind::Shape(shape) => Some(&shape.transform),
            EntityKind::Body(body) => Some(&body.transform),
            EntityKind::Screen(screen) => Some(&screen.transform),
            EntityKind::Water(water) => Some(&water.transform),
            EntityKind::Vehicle(vehicle) => Some(&vehicle.transform),
            EntityKind::Trigger(trigger) => Some(&trigger.transform),
            EntityKind::Location(location) => Some(&location.transform),
            EntityKind::Light(light) => Some(&light.transform),
            EntityKind::Joint(_) | EntityKind::Wheel(_) | EntityKind::Script(_) => None,
        }
    }

    /// The first byte of what the entity holds; 0 for a joint, which holds
    /// no such byte.
    pub fn z_u8_start(&self) -> (byte: u8)
        ensures
            byte == match self {
                EntityKind::Shape(shape) => shape.z_u8_start,
                EntityKind::Body(body) => body.z_u8_start,
                EntityKind::Screen(screen) => screen.z_u8_start,
                EntityKind::Water(water) => water.z_u8_start,
                EntityKind::Vehicle(vehicle) => vehicle.z_u8_start,
                EntityKind::Trigger(trigger) => trigger.z_u8_start,
                EntityKind::Location(location) => location.z_u8_start,
                EntityKind::Joint(_) => 0,
                EntityKind::Light(light) => light.z_u8_start,
                EntityKind::Wheel(wheel) => wheel.z_u8_start,
                EntityKind::Script(script) => script.z_u8_start,
            },
    {
        match self {
            EntityKind::Shape(shape) => shape.z_u8_start,
            EntityKind::Body(body) => body.z_u8_start,
            EntityKind::Screen(screen) => screen.z_u8_start,
            EntityKind::Water(water) => water.z_u8_start,
            EntityKind::Vehicle(vehicle) => vehicle.z_u8_start,
            EntityKind::Trigger(trigger) => trigger.z_u8_start,
            EntityKind::Location(location) => location.z_u8_start,
            EntityKind::Joint(_) => 0,
            EntityKind::Light(light) => light.z_u8_start,
            EntityKind::Wheel(wheel) => wheel.z_u8_start,
            EntityKind::Script(script) => script.z_u8_start,
        }
    }
}

/// A node of the tree of a scene.
#[derive(Debug)]
pub struct Entity {
    /// A number by which other entities refer to this one. Nothing says
    /// that no other entity has the same.
    pub handle: u32,
    pub tags: Tags,
    pub desc: String,
    pub kind: EntityKind,
    pub children: Vec<Entity>,
}

/// What an entity holds.
pub struct EntityView {
    pub handle: u32,
    pub tags: Seq<EntryView>,
    pub desc: Seq<char>,
    pub kind: EntityKindView,
    pub children: Seq<EntityView>,
}

impl Entity {
    /// What the entity holds.
    pub open spec fn model(self) -> EntityView
        decreases self,
    {
        EntityView {
            handle: self.handle,
            tags: self.tags@,
            desc: self.desc@,
            kind: self.kind@,
            children: Seq::new(
                self.children@.len(),
                |i: int|
                    if 0 <= i < self.children@.len() {
                        self.children@[i].model()
                    } else {
                        arbitrary()
                    },
            ),
        }
    }

    /// The placement of the entity, where its kind has one.
    pub fn transform(&self) -> (transform: Option<&Transform>)
        ensures
            transform == self.kind.placement(),
    {
        self.kind.transform()
    }
}

impl View for Entity {
    type V = EntityView;

    open spec fn view(&self) -> EntityView {
        self.model()
    }
}

/// The four bytes that end an entity.
pub open spec fn sentinel() -> Seq<u8> {
    seq![0xefu8, 0xbeu8, 0xefu8, 0xbeu8]
}

/// The entity at `at`: the byte that says what the entity is, its handle,
/// its tags, its description, what it holds as what it is, the number of
/// its children in four bytes, its children, and the four bytes that end
/// an entity.
pub open spec fn spec_entity(bytes: Seq<u8>, at: int) -> Result<(EntityView, int), Failure>
    decreases bytes.len() - at, 0nat,
{
    let kind_byte = field(spec_u8(bytes, at), "kind_byte");
    let handle = field(spec_u32(bytes, end_of(kind_byte)), "handle");
    let tags = field(Tags::spec_parse(bytes, end_of(handle)), "tags");
    let desc = field(spec_string(bytes, end_of(tags), Prefix::U32), "desc");
    let kind = field(spec_entity_kind(bytes, end_of(desc), value_of(kind_byte), at), "kind");
    let count = field(spec_u32(bytes, end_of(kind)), "children");
    if kind_byte is Err {
        failed(kind_byte)
    } else if handle is Err {
        failed(handle)
    } else if tags is Err {
        failed(tags)
    } else if desc is Err {
        failed(desc)
    } else if kind is Err {
        failed(kind)
    } else if count is Err {
        failed(count)
    } else if !advanced(bytes, at, end_of(count)) {
        fail(ParseErrorKind::UnexpectedEnd, at)
    } else {
        let children = field(
            spec_entities(bytes, end_of(count), 0, value_of(count) as nat),
            "children",
        );
        let beef_beef = field(spec_expect(bytes, end_of(children), sentinel()), "beef_beef");
        if children is Err {
            failed(children)
        } else if beef_beef is Err {
            failed(beef_beef)
        } else {
            Ok(
                (
                    EntityView {
                        handle: value_of(handle),
                        tags: value_of(tags),
                        desc: value_of(desc),
                        kind: value_of(kind),
                        children: value_of(children),
                    },
                    end_of(beef_beef),
                ),
            )
        }
    }
}

/// The entities at `at` from the one with the position `from` up to the
/// one with the position `n`, one after the other.
pub open spec fn spec_entities(bytes: Seq<u8>, at: int, from: nat, n: nat) -> Result<
    (Seq<EntityView>, int),
    Failure,
>
    decreases bytes.len() - at, n - from + 1,
{
    if from >= n {
        Ok((Seq::empty(), at))
    } else {
        match under(spec_entity(bytes, at), PathStep::Index(from as usize)) {
            Err(failure) => Err(failure),
            Ok((first, middle)) => if !advanced(bytes, at, middle) {
                fail(ParseErrorKind::UnexpectedEnd, at)
            } else {
                match spec_entities(bytes, middle, from + 1, n) {
                    Err(failure) => Err(failure),
                    Ok((rest, end)) => Ok((seq![first] + rest, end)),
                }
            },
        }
    }
}

/// The sequence of entities at `at`: their number in four bytes, then the
/// entities.
pub open spec fn spec_entity_list(bytes: Seq<u8>, at: int) -> Result<
    (Seq<EntityView>, int),
    Failure,
> {
    match spec_u32(bytes, at) {
        Err(failure) => Err(failure),
        Ok((n, begin)) => spec_entities(bytes, begin, 0, n as nat),
    }
}

/// Reading an entity looks at the bytes from `at` on and at no others.
pub proof fn lemma_reads_entity(a: Seq<u8>, b: Seq<u8>, at: int)
    requires
        same_from(a, b, at),
    ensures
        spec_entity(a, at) == spec_entity(b, at),
        ends_within(spec_entity(a, at), a, at),
    decreases a.len() - at, 0nat,
{
    reveal(same_from);
    lemma_reads_u8(a, b, at);
    let kind_byte = field(spec_u8(a, at), "kind_byte");
    if kind_byte is Ok {
        lemma_same_later(a, b, at, end_of(kind_byte));
        lemma_reads_u32(a, b, end_of(kind_byte));
        let handle = field(spec_u32(a, end_of(kind_byte)), "handle");
        if handle is Ok {
            lemma_same_later(a, b, at, end_of(handle));
            Tags::lemma_reads_ahead(a, b, end_of(handle));
            let tags = field(Tags::spec_parse(a, end_of(handle)), "tags");
            if tags is Ok {
                lemma_same_later(a, b, at, end_of(tags));
                lemma_reads_string(a, b, end_of(tags), Prefix::U32);
                let desc = field(spec_string(a, end_of(tags), Prefix::U32), "desc");
                if desc is Ok {
                    lemma_same_later(a, b, at, end_of(desc));
                    lemma_reads_entity_kind(a, b, end_of(desc), value_of(kind_byte), at);
                    let kind = field(
                        spec_entity_kind(a, end_of(desc), value_of(kind_byte), at),
                        "kind",
                    );
                    if kind is Ok {
                        lemma_same_later(a, b, at, end_of(kind));
                        lemma_reads_u32(a, b, end_of(kind));
                        let count = field(spec_u32(a, end_of(kind)), "children");
                        if count is Ok && advanced(a, at, end_of(count)) {
                            lemma_same_later(a, b, at, end_of(count));
                            lemma_reads_entities(a, b, end_of(count), 0, value_of(count) as nat);
                            let children = field(
                                spec_entities(a, end_of(count), 0, value_of(count) as nat),
                                "children",
                            );
                            if children is Ok {
                                lemma_same_later(a, b, at, end_of(children));
                                lemma_reads_expect(a, b, end_of(children), sentinel());
                            }
                        }
                    }
                }
            }
        }
    }
}

/// Reading entities one after the other looks at the bytes from `at` on
/// and at no others.
pub proof fn lemma_reads_entities(a: Seq<u8>, b: Seq<u8>, at: int, from: nat, n: nat)
    requires
        same_from(a, b, at),
    ensures
        spec_entities(a, at, from, n) == spec_entities(b, at, from, n),
        ends_within(spec_entities(a, at, from, n), a, at),
    decreases a.len() - at, n - from + 1,
{
    reveal(same_from);
    if from < n {
        lemma_reads_entity(a, b, at);
        if let Ok((first, middle)) = spec_entity(a, at) {
            if advanced(a, at, middle) {
                lemma_same_later(a, b, at, middle);
                lemma_reads_entities(a, b, middle, from + 1, n);
            }
        }
    }
}

/// Reading a sequence of entities looks at the bytes from `at` on and at
/// no others.
pub proof fn lemma_reads_entity_list(a: Seq<u8>, b: Seq<u8>, at: int)
    requires
        same_from(a, b, at),
    ensures
        spec_entity_list(a, at) == spec_entity_list(b, at),
        ends_within(spec_entity_list(a, at), a, at),
{
    lemma_reads_u32(a, b, at);
    if let Ok((n, begin)) = spec_u32(a, at) {
        lemma_same_later(a, b, at, begin);
        lemma_reads_entities(a, b, begin, 0, n as nat);
    }
}

/// Reads an entity with its children.
pub fn parse_entity(parser: &mut Parser) -> (got: Result<Entity, ParseError>)
    ensures
        final(parser).input() == old(parser).input(),
        agrees(
            seen(got),
            old(parser).cursor(),
            final(parser).cursor(),
            spec_entity(old(parser).input(), old(parser).cursor()),
        ),
        got is Ok ==> advanced(old(parser).input(), old(parser).cursor(), final(parser).cursor()),
    decreases old(parser).input().len() - old(parser).cursor(), 0nat,
{
    let start = parser.position();
    let kind_byte = at_field(parser.read_u8(), "kind_byte")?;
    let handle = at_field(parser.read_u32(), "handle")?;
    let tags = at_field(Tags::parse(parser), "tags")?;
    let desc = at_field(parser.read_string(Prefix::U32), "desc")?;
    let kind = at_field(parse_entity_kind(parser, kind_byte, start), "kind")?;
    let count = at_field(parser.read_u32(), "children")?;
    let _begin = parser.position();
    let children = at_field(parse_entities(parser, count as usize), "children")?;
    let _beef_beef = at_field(parser.expect(&[0xef, 0xbe, 0xef, 0xbe]), "beef_beef")?;
    let _end = parser.position();
    let entity = Entity { handle, tags, desc, kind, children };
    assert(entity@.children =~= views(entity.children@));
    Ok(entity)
}

/// Reads `n` entities, one after the other.
pub fn parse_entities(parser: &mut Parser, n: usize) -> (got: Result<Vec<Entity>, ParseError>)
    ensures
        final(parser).input() == old(parser).input(),
        old(parser).cursor() <= final(parser).cursor(),
        match got {
            Ok(entities) => spec_entities(old(parser).input(), old(parser).cursor(), 0, n as nat)
                == Ok::<(Seq<EntityView>, int), Failure>(
                (views(entities@), final(parser).cursor()),
            ),
            Err(error) => spec_entities(old(parser).input(), old(parser).cursor(), 0, n as nat)
                == Err::<(Seq<EntityView>, int), Failure>(error@) && final(parser).cursor()
                == error@.offset,
        },
    decreases old(parser).input().len() - old(parser).cursor(), 1nat,
{
    let ghost bytes = parser.input();
    let ghost start = parser.cursor();
    let mut done: Vec<Entity> = Vec::new();
    assert(views(done@) + value_of(spec_entities(bytes, start, 0, n as nat)) =~= value_of(
        spec_entities(bytes, start, 0, n as nat),
    ));
    while done.len() < n
        invariant
            parser.input() == bytes,
            bytes == old(parser).input(),
            start == old(parser).cursor(),
            start <= parser.cursor(),
            done@.len() <= n,
            spec_entities(bytes, start, 0, n as nat) == prepended(
                views(done@),
                spec_entities(bytes, parser.cursor(), done@.len(), n as nat),
            ),
        decreases n - done@.len(),
    {
        let index = done.len();
        let ghost before = views(done@);
        let _here = parser.position();
        let first = at_index(parse_entity(parser), index)?;
        let _middle = parser.position();
        let ghost one = first@;
        done.push(first);
        proof {
            assert(views(done@) =~= before.push(one));
            let rest = spec_entities(bytes, _middle as int, (index + 1) as nat, n as nat);
            if rest is Ok {
                assert(before + (seq![one] + value_of(rest)) =~= before.push(one) + value_of(rest));
            }
        }
    }
    assert(views(done@) + Seq::<EntityView>::empty() =~= views(done@));
    Ok(done)
}

/// Reads a sequence of entities: their number in four bytes, then the
/// entities.
pub fn parse_entity_list(parser: &mut Parser) -> (got: Result<Vec<Entity>, ParseError>)
    ensures
        final(parser).input() == old(parser).input(),
        old(parser).cursor() <= final(parser).cursor(),
        match got {
            Ok(entities) => spec_entity_list(old(parser).input(), old(parser).cursor()) == Ok::<
                (Seq<EntityView>, int),
                Failure,
            >((views(entities@), final(parser).cursor())),
            Err(error) => spec_entity_list(old(parser).input(), old(parser).cursor()) == Err::<
                (Seq<EntityView>, int),
                Failure,
            >(error@) && final(parser).cursor() == error@.offset,
        },
{
    let n = parser.read_u32()?;
    parse_entities(parser, n as usize)
}

} // verus!
