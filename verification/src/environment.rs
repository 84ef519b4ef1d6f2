//! The surroundings of a scene.

use crate::material::Rgba;
use crate::numeric::Real32;
use crate::parser::{Decode, Failure, ParseError, Parser, Prefix};
use crate::parser::{at_field, end_of, failed, field, value_of};
use crate::parser::{
    lemma_reads_bool, lemma_reads_real32, lemma_reads_real32x3, lemma_reads_string, lemma_reads_u8,
};
use crate::parser::{lemma_same_later};
use crate::parser::{spec_bool, spec_real32, spec_real32x3, spec_string, spec_u8};
use vstd::prelude::*;

verus! {

/// A sound file and how loud it plays.
#[derive(Clone, Debug)]
pub struct Sound {
    pub path: String,
    pub volume: Real32,
}

/// What a sound holds.
pub struct SoundView {
    pub path: Seq<char>,
    pub volume: Real32,
}

impl View for Sound {
    type V = SoundView;

    open spec fn view(&self) -> SoundView {
        SoundView {
            path: self.path@,
            volume: self.volume,
        }
    }
}

/// What reading a sound at `at` gives: its parts one after the other.
#[verifier::opaque]
pub open spec fn spec_sound(bytes: Seq<u8>, at: int) -> Result<(SoundView, int), Failure> {
    let path = field(spec_string(bytes, at, Prefix::U32), "path");
    let volume = field(spec_real32(bytes, end_of(path)), "volume");
    if path is Err {
        failed(path)
    } else if volume is Err {
        failed(volume)
    } else {
        Ok(
            (
                SoundView {
                    path: value_of(path),
                    volume: value_of(volume),
                },
                end_of(volume),
            ),
        )
    }
}

impl Decode for Sound {
    open spec fn spec_parse(bytes: Seq<u8>, at: int) -> Result<(SoundView, int), Failure> {
        spec_sound(bytes, at)
    }

    fn parse(parser: &mut Parser) -> (got: Result<Sound, ParseError>) {
        proof {
            reveal(spec_sound);
        }
        let path = at_field(parser.read_string(Prefix::U32), "path")?;
        let volume = at_field(parser.read_real32(), "volume")?;
        Ok(Sound { path, volume })
    }

    proof fn lemma_reads_ahead(a: Seq<u8>, b: Seq<u8>, at: int) {
        reveal(spec_sound);
        lemma_reads_string(a, b, at, Prefix::U32);
        let path = field(spec_string(a, at, Prefix::U32), "path");
        let so_far = path is Ok;
        if so_far {
            lemma_same_later(a, b, at, end_of(path));
            lemma_reads_real32(a, b, end_of(path));
        }
    }
}

/// The limits of the camera's exposure.
#[derive(Clone, Copy, Debug)]
pub struct Exposure {
    pub min: Real32,
    pub max: Real32,
    pub brightness_goal: Real32,
}

impl View for Exposure {
    type V = Exposure;

    open spec fn view(&self) -> Exposure {
        *self
    }
}

/// What reading an exposure at `at` gives: its parts one after the other.
#[verifier::opaque]
pub open spec fn spec_exposure(bytes: Seq<u8>, at: int) -> Result<(Exposure, int), Failure> {
    let min = field(spec_real32(bytes, at), "min");
    let max = field(spec_real32(bytes, end_of(min)), "max");
    let brightness_goal = field(spec_real32(bytes, end_of(max)), "brightness_goal");
    if min is Err {
        failed(min)
    } else if max is Err {
        failed(max)
    } else if brightness_goal is Err {
        failed(brightness_goal)
    } else {
        Ok(
            (
                Exposure {
                    min: value_of(min),
                    max: value_of(max),
                    brightness_goal: value_of(brightness_goal),
                },
                end_of(brightness_goal),
            ),
        )
    }
}

impl Decode for Exposure {
    open spec fn spec_parse(bytes: Seq<u8>, at: int) -> Result<(Exposure, int), Failure> {
        spec_exposure(bytes, at)
    }

    fn parse(parser: &mut Parser) -> (got: Result<Exposure, ParseError>) {
        proof {
            reveal(spec_exposure);
        }
        let min = at_field(parser.read_real32(), "min")?;
        let max = at_field(parser.read_real32(), "max")?;
        let brightness_goal = at_field(parser.read_real32(), "brightness_goal")?;
        Ok(Exposure { min, max, brightness_goal })
    }

    proof fn lemma_reads_ahead(a: Seq<u8>, b: Seq<u8>, at: int) {
        reveal(spec_exposure);
        lemma_reads_real32(a, b, at);
        let min = field(spec_real32(a, at), "min");
        let so_far = min is Ok;
        if so_far {
            lemma_same_later(a, b, at, end_of(min));
            lemma_reads_real32(a, b, end_of(min));
        }
        let max = field(spec_real32(a, end_of(min)), "max");
        let so_far = so_far && max is Ok;
        if so_far {
            lemma_same_later(a, b, at, end_of(max));
            lemma_reads_real32(a, b, end_of(max));
        }
    }
}

/// The sun of a skybox.
#[derive(Clone, Copy, Debug)]
pub struct Sun {
    pub tint_brightness: [Real32; 3],
    pub tint: Rgba,
    pub direction: [Real32; 3],
    pub brightness: Real32,
    pub spread: Real32,
    pub max_shadow_length: Real32,
    pub fog_scale: Real32,
    pub glare: Real32,
}

impl View for Sun {
    type V = Sun;

    open spec fn view(&self) -> Sun {
        *self
    }
}

/// What reading a sun at `at` gives: its parts one after the other.
#[verifier::opaque]
pub open spec fn spec_sun(bytes: Seq<u8>, at: int) -> Result<(Sun, int), Failure> {
    let tint_brightness = field(spec_real32x3(bytes, at), "tint_brightness");
    let tint = field(Rgba::spec_parse(bytes, end_of(tint_brightness)), "tint");
    let direction = field(spec_real32x3(bytes, end_of(tint)), "direction");
    let brightness = field(spec_real32(bytes, end_of(direction)), "brightness");
    let spread = field(spec_real32(bytes, end_of(brightness)), "spread");
    let max_shadow_length = field(spec_real32(bytes, end_of(spread)), "max_shadow_length");
    let fog_scale = field(spec_real32(bytes, end_of(max_shadow_length)), "fog_scale");
    let glare = field(spec_real32(bytes, end_of(fog_scale)), "glare");
    if tint_brightness is Err {
        failed(tint_brightness)
    } else if tint is Err {
        failed(tint)
    } else if direction is Err {
        failed(direction)
    } else if brightness is Err {
        failed(brightness)
    } else if spread is Err {
        failed(spread)
    } else if max_shadow_length is Err {
        failed(max_shadow_length)
    } else if fog_scale is Err {
        failed(fog_scale)
    } else if glare is Err {
        failed(glare)
    } else {
        Ok(
            (
                Sun {
                    tint_brightness: value_of(tint_brightness),
                    tint: value_of(tint),
                    direction: value_of(direction),
                    brightness: value_of(brightness),
                    spread: value_of(spread),
                    max_shadow_length: value_of(max_shadow_length),
                    fog_scale: value_of(fog_scale),
                    glare: value_of(glare),
                },
                end_of(glare),
            ),
        )
    }
}

impl Decode for Sun {
    open spec fn spec_parse(bytes: Seq<u8>, at: int) -> Result<(Sun, int), Failure> {
        spec_sun(bytes, at)
    }

    fn parse(parser: &mut Parser) -> (got: Result<Sun, ParseError>) {
        proof {
            reveal(spec_sun);
        }
        let tint_brightness = at_field(parser.read_real32x3(), "tint_brightness")?;
        let tint = at_field(Rgba::parse(parser), "tint")?;
        let direction = at_field(parser.read_real32x3(), "direction")?;
        let brightness = at_field(parser.read_real32(), "brightness")?;
        let spread = at_field(parser.read_real32(), "spread")?;
        let max_shadow_length = at_field(parser.read_real32(), "max_shadow_length")?;
        let fog_scale = at_field(parser.read_real32(), "fog_scale")?;
        let glare = at_field(parser.read_real32(), "glare")?;
        Ok(
            Sun {
                tint_brightness,
                tint,
                direction,
                brightness,
                spread,
                max_shadow_length,
                fog_scale,
                glare,
            },
        )
    }

    proof fn lemma_reads_ahead(a: Seq<u8>, b: Seq<u8>, at: int) {
        reveal(spec_sun);
        lemma_reads_real32x3(a, b, at);
        let tint_brightness = field(spec_real32x3(a, at), "tint_brightness");
        let so_far = tint_brightness is Ok;
        if so_far {
            lemma_same_later(a, b, at, end_of(tint_brightness));
            Rgba::lemma_reads_ahead(a, b, end_of(tint_brightness));
        }
        let tint = field(Rgba::spec_parse(a, end_of(tint_brightness)), "tint");
        let so_far = so_far && tint is Ok;
        if so_far {
            lemma_same_later(a, b, at, end_of(tint));
            lemma_reads_real32x3(a, b, end_of(tint));
        }
        let direction = field(spec_real32x3(a, end_of(tint)), "direction");
        let so_far = so_far && direction is Ok;
        if so_far {
            lemma_same_later(a, b, at, end_of(direction));
            lemma_reads_real32(a, b, end_of(direction));
        }
        let brightness = field(spec_real32(a, end_of(direction)), "brightness");
        let so_far = so_far && brightness is Ok;
        if so_far {
            lemma_same_later(a, b, at, end_of(brightness));
            lemma_reads_real32(a, b, end_of(brightness));
        }
        let spread = field(spec_real32(a, end_of(brightness)), "spread");
        let so_far = so_far && spread is Ok;
        if so_far {
            lemma_same_later(a, b, at, end_of(spread));
            lemma_reads_real32(a, b, end_of(spread));
        }
        let max_shadow_length = field(spec_real32(a, end_of(spread)), "max_shadow_length");
        let so_far = so_far && max_shadow_length is Ok;
        if so_far {
            lemma_same_later(a, b, at, end_of(max_shadow_length));
            lemma_reads_real32(a, b, end_of(max_shadow_length));
        }
        let fog_scale = field(spec_real32(a, end_of(max_shadow_length)), "fog_scale");
        let so_far = so_far && fog_scale is Ok;
        if so_far {
            lemma_same_later(a, b, at, end_of(fog_scale));
            lemma_reads_real32(a, b, end_of(fog_scale));
        }
    }
}

/// The sky around a scene.
#[derive(Clone, Debug)]
pub struct Skybox {
    pub texture: String,
    pub color_intensity: Rgba,
    /// In radians.
    pub rotation: Real32,
    pub sun: Sun,
    pub z_u8: u8,
    pub constant: Rgba,
    pub ambient_light: Real32,
    pub ambient_exposure: Real32,
}

/// What a skybox holds.
pub struct SkyboxView {
    pub texture: Seq<char>,
    pub color_intensity: Rgba,
    pub rotation: Real32,
    pub sun: Sun,
    pub z_u8: u8,
    pub constant: Rgba,
    pub ambient_light: Real32,
    pub ambient_exposure: Real32,
}

impl View for Skybox {
    type V = SkyboxView;

    open spec fn view(&self) -> SkyboxView {
        SkyboxView {
            texture: self.texture@,
            color_intensity: self.color_intensity,
            rotation: self.rotation,
            sun: self.sun,
            z_u8: self.z_u8,
            constant: self.constant,
            ambient_light: self.ambient_light,
            ambient_exposure: self.ambient_exposure,
        }
    }
}

/// What reading a skybox at `at` gives: its parts one after the other.
#[verifier::opaque]
pub open spec fn spec_skybox(bytes: Seq<u8>, at: int) -> Result<(SkyboxView, int), Failure> {
    let texture = field(spec_string(bytes, at, Prefix::U32), "texture");
    let color_intensity = field(Rgba::spec_parse(bytes, end_of(texture)), "color_intensity");
    let rotation = field(spec_real32(bytes, end_of(color_intensity)), "rotation");
    let sun = field(Sun::spec_parse(bytes, end_of(rotation)), "sun");
    let z_u8 = field(spec_u8(bytes, end_of(sun)), "z_u8");
    let constant = field(Rgba::spec_parse(bytes, end_of(z_u8)), "constant");
    let ambient_light = field(spec_real32(bytes, end_of(constant)), "ambient_light");
    let ambient_exposure = field(spec_real32(bytes, end_of(ambient_light)), "ambient_exposure");
    if texture is Err {
        failed(texture)
    } else if color_intensity is Err {
        failed(color_intensity)
    } else if rotation is Err {
        failed(rotation)
    } else if sun is Err {
        failed(sun)
    } else if z_u8 is Err {
        failed(z_u8)
    } else if constant is Err {
        failed(constant)
    } else if ambient_light is Err {
        failed(ambient_light)
    } else if ambient_exposure is Err {
        failed(ambient_exposure)
    } else {
        Ok(
            (
                SkyboxView {
                    texture: value_of(texture),
                    color_intensity: value_of(color_intensity),
                    rotation: value_of(rotation),
                    sun: value_of(sun),
                    z_u8: value_of(z_u8),
                    constant: value_of(constant),
                    ambient_light: value_of(ambient_light),
                    ambient_exposure: value_of(ambient_exposure),
                },
                end_of(ambient_exposure),
            ),
        )
    }
}

impl Decode for Skybox {
    open spec fn spec_parse(bytes: Seq<u8>, at: int) -> Result<(SkyboxView, int), Failure> {
        spec_skybox(bytes, at)
    }

    fn parse(parser: &mut Parser) -> (got: Result<Skybox, ParseError>) {
        proof {
            reveal(spec_skybox);
        }
        let texture = at_field(parser.read_string(Prefix::U32), "texture")?;
        let color_intensity = at_field(Rgba::parse(parser), "color_intensity")?;
        let rotation = at_field(parser.read_real32(), "rotation")?;
        let sun = at_field(Sun::parse(parser), "sun")?;
        let z_u8 = at_field(parser.read_u8(), "z_u8")?;
        let constant = at_field(Rgba::parse(parser), "constant")?;
        let ambient_light = at_field(parser.read_real32(), "ambient_light")?;
        let ambient_exposure = at_field(parser.read_real32(), "ambient_exposure")?;
        Ok(
            Skybox {
                texture,
                color_intensity,
                rotation,
                sun,
                z_u8,
                constant,
                ambient_light,
                ambient_exposure,
            },
        )
    }

    proof fn lemma_reads_ahead(a: Seq<u8>, b: Seq<u8>, at: int) {
        reveal(spec_skybox);
        lemma_reads_string(a, b, at, Prefix::U32);
        let texture = field(spec_string(a, at, Prefix::U32), "texture");
        let so_far = texture is Ok;
        if so_far {
            lemma_same_later(a, b, at, end_of(texture));
            Rgba::lemma_reads_ahead(a, b, end_of(texture));
        }
        let color_intensity = field(Rgba::spec_parse(a, end_of(texture)), "color_intensity");
        let so_far = so_far && color_intensity is Ok;
        if so_far {
            lemma_same_later(a, b, at, end_of(color_intensity));
            lemma_reads_real32(a, b, end_of(color_intensity));
        }
        let rotation = field(spec_real32(a, end_of(color_intensity)), "rotation");
        let so_far = so_far && rotation is Ok;
        if so_far {
            lemma_same_later(a, b, at, end_of(rotation));
            Sun::lemma_reads_ahead(a, b, end_of(rotation));
        }
        let sun = field(Sun::spec_parse(a, end_of(rotation)), "sun");
        let so_far = so_far && sun is Ok;
        if so_far {
            lemma_same_later(a, b, at, end_of(sun));
            lemma_reads_u8(a, b, end_of(sun));
        }
        let z_u8 = field(spec_u8(a, end_of(sun)), "z_u8");
        let so_far = so_far && z_u8 is Ok;
        if so_far {
            lemma_same_later(a, b, at, end_of(z_u8));
            Rgba::lemma_reads_ahead(a, b, end_of(z_u8));
        }
        let constant = field(Rgba::spec_parse(a, end_of(z_u8)), "constant");
        let so_far = so_far && constant is Ok;
        if so_far {
            lemma_same_later(a, b, at, end_of(constant));
            lemma_reads_real32(a, b, end_of(constant));
        }
        let ambient_light = field(spec_real32(a, end_of(constant)), "ambient_light");
        let so_far = so_far && ambient_light is Ok;
        if so_far {
            lemma_same_later(a, b, at, end_of(ambient_light));
            lemma_reads_real32(a, b, end_of(ambient_light));
        }
    }
}

/// The fog of a scene.
#[derive(Clone, Copy, Debug)]
pub struct Fog {
    pub color: Rgba,
    pub start: Real32,
    pub distance: Real32,
    pub amount: Real32,
    pub exponent: Real32,
}

impl View for Fog {
    type V = Fog;

    open spec fn view(&self) -> Fog {
        *self
    }
}

/// What reading a fog at `at` gives: its parts one after the other.
#[verifier::opaque]
pub open spec fn spec_fog(bytes: Seq<u8>, at: int) -> Result<(Fog, int), Failure> {
    let color = field(Rgba::spec_parse(bytes, at), "color");
    let start = field(spec_real32(bytes, end_of(color)), "start");
    let distance = field(spec_real32(bytes, end_of(start)), "distance");
    let amount = field(spec_real32(bytes, end_of(distance)), "amount");
    let exponent = field(spec_real32(bytes, end_of(amount)), "exponent");
    if color is Err {
        failed(color)
    } else if start is Err {
        failed(start)
    } else if distance is Err {
        failed(distance)
    } else if amount is Err {
        failed(amount)
    } else if exponent is Err {
        failed(exponent)
    } else {
        Ok(
            (
                Fog {
                    color: value_of(color),
                    start: value_of(start),
                    distance: value_of(distance),
                    amount: value_of(amount),
                    exponent: value_of(exponent),
                },
                end_of(exponent),
            ),
        )
    }
}

impl Decode for Fog {
    open spec fn spec_parse(bytes: Seq<u8>, at: int) -> Result<(Fog, int), Failure> {
        spec_fog(bytes, at)
    }

    fn parse(parser: &mut Parser) -> (got: Result<Fog, ParseError>) {
        proof {
            reveal(spec_fog);
        }
        let color = at_field(Rgba::parse(parser), "color")?;
        let start = at_field(parser.read_real32(), "start")?;
        let distance = at_field(parser.read_real32(), "distance")?;
        let amount = at_field(parser.read_real32(), "amount")?;
        let exponent = at_field(parser.read_real32(), "exponent")?;
        Ok(Fog { color, start, distance, amount, exponent })
    }

    proof fn lemma_reads_ahead(a: Seq<u8>, b: Seq<u8>, at: int) {
        reveal(spec_fog);
        Rgba::lemma_reads_ahead(a, b, at);
        let color = field(Rgba::spec_parse(a, at), "color");
        let so_far = color is Ok;
        if so_far {
            lemma_same_later(a, b, at, end_of(color));
            lemma_reads_real32(a, b, end_of(color));
        }
        let start = field(spec_real32(a, end_of(color)), "start");
        let so_far = so_far && start is Ok;
        if so_far {
            lemma_same_later(a, b, at, end_of(start));
            lemma_reads_real32(a, b, end_of(start));
        }
        let distance = field(spec_real32(a, end_of(start)), "distance");
        let so_far = so_far && distance is Ok;
        if so_far {
            lemma_same_later(a, b, at, end_of(distance));
            lemma_reads_real32(a, b, end_of(distance));
        }
        let amount = field(spec_real32(a, end_of(distance)), "amount");
        let so_far = so_far && amount is Ok;
        if so_far {
            lemma_same_later(a, b, at, end_of(amount));
            lemma_reads_real32(a, b, end_of(amount));
        }
    }
}

/// How wet a scene is.
#[derive(Clone, Copy, Debug)]
pub struct Water {
    pub wetness: Real32,
    pub puddle_coverage: Real32,
    pub puddle_size: Real32,
    pub rain: Real32,
}

impl View for Water {
    type V = Water;

    open spec fn view(&self) -> Water {
        *self
    }
}

/// What reading a record of wetness at `at` gives: its parts one after the other.
#[verifier::opaque]
pub open spec fn spec_water(bytes: Seq<u8>, at: int) -> Result<(Water, int), Failure> {
    let wetness = field(spec_real32(bytes, at), "wetness");
    let puddle_coverage = field(spec_real32(bytes, end_of(wetness)), "puddle_coverage");
    let puddle_size = field(spec_real32(bytes, end_of(puddle_coverage)), "puddle_size");
    let rain = field(spec_real32(bytes, end_of(puddle_size)), "rain");
    if wetness is Err {
        failed(wetness)
    } else if puddle_coverage is Err {
        failed(puddle_coverage)
    } else if puddle_size is Err {
        failed(puddle_size)
    } else if rain is Err {
        failed(rain)
    } else {
        Ok(
            (
                Water {
                    wetness: value_of(wetness),
                    puddle_coverage: value_of(puddle_coverage),
                    puddle_size: value_of(puddle_size),
                    rain: value_of(rain),
                },
                end_of(rain),
            ),
        )
    }
}

impl Decode for Water {
    open spec fn spec_parse(bytes: Seq<u8>, at: int) -> Result<(Water, int), Failure> {
        spec_water(bytes, at)
    }

    fn parse(parser: &mut Parser) -> (got: Result<Water, ParseError>) {
        proof {
            reveal(spec_water);
        }
        let wetness = at_field(parser.read_real32(), "wetness")?;
        let puddle_coverage = at_field(parser.read_real32(), "puddle_coverage")?;
        let puddle_size = at_field(parser.read_real32(), "puddle_size")?;
        let rain = at_field(parser.read_real32(), "rain")?;
        Ok(Water { wetness, puddle_coverage, puddle_size, rain })
    }

    proof fn lemma_reads_ahead(a: Seq<u8>, b: Seq<u8>, at: int) {
        reveal(spec_water);
        lemma_reads_real32(a, b, at);
        let wetness = field(spec_real32(a, at), "wetness");
        let so_far = wetness is Ok;
        if so_far {
            lemma_same_later(a, b, at, end_of(wetness));
            lemma_reads_real32(a, b, end_of(wetness));
        }
        let puddle_coverage = field(spec_real32(a, end_of(wetness)), "puddle_coverage");
        let so_far = so_far && puddle_coverage is Ok;
        if so_far {
            lemma_same_later(a, b, at, end_of(puddle_coverage));
            lemma_reads_real32(a, b, end_of(puddle_coverage));
        }
        let puddle_size = field(spec_real32(a, end_of(puddle_coverage)), "puddle_size");
        let so_far = so_far && puddle_size is Ok;
        if so_far {
            lemma_same_later(a, b, at, end_of(puddle_size));
            lemma_reads_real32(a, b, end_of(puddle_size));
        }
    }
}

/// The surroundings of a scene: sky, light, fog and weather.
#[derive(Clone, Debug)]
pub struct Environment {
    pub skybox: Skybox,
    pub exposure: Exposure,
    pub fog: Fog,
    pub water: Water,
    pub nightlight: bool,
    pub ambience: Sound,
    pub slippery: Real32,
    pub lights_fog_scale: Real32,
}

/// What an environment holds.
pub struct EnvironmentView {
    pub skybox: SkyboxView,
    pub exposure: Exposure,
    pub fog: Fog,
    pub water: Water,
    pub nightlight: bool,
    pub ambience: SoundView,
    pub slippery: Real32,
    pub lights_fog_scale: Real32,
}

impl View for Environment {
    type V = EnvironmentView;

    open spec fn view(&self) -> EnvironmentView {
        EnvironmentView {
            skybox: self.skybox@,
            exposure: self.exposure,
            fog: self.fog,
            water: self.water,
            nightlight: self.nightlight,
            ambience: self.ambience@,
            slippery: self.slippery,
            lights_fog_scale: self.lights_fog_scale,
        }
    }
}

/// What reading an environment at `at` gives: its parts one after the other.
#[verifier::opaque]
pub open spec fn spec_environment(bytes: Seq<u8>, at: int) -> Result<
    (EnvironmentView, int),
    Failure,
> {
    let skybox = field(Skybox::spec_parse(bytes, at), "skybox");
    let exposure = field(Exposure::spec_parse(bytes, end_of(skybox)), "exposure");
    let fog = field(Fog::spec_parse(bytes, end_of(exposure)), "fog");
    let water = field(Water::spec_parse(bytes, end_of(fog)), "water");
    let nightlight = field(spec_bool(bytes, end_of(water)), "nightlight");
    let ambience = field(Sound::spec_parse(bytes, end_of(nightlight)), "ambience");
    let slippery = field(spec_real32(bytes, end_of(ambience)), "slippery");
    let lights_fog_scale = field(spec_real32(bytes, end_of(slippery)), "lights_fog_scale");
    if skybox is Err {
        failed(skybox)
    } else if exposure is Err {
        failed(exposure)
    } else if fog is Err {
        failed(fog)
    } else if water is Err {
        failed(water)
    } else if nightlight is Err {
        failed(nightlight)
    } else if ambience is Err {
        failed(ambience)
    } else if slippery is Err {
        failed(slippery)
    } else if lights_fog_scale is Err {
        failed(lights_fog_scale)
    } else {
        Ok(
            (
                EnvironmentView {
                    skybox: value_of(skybox),
                    exposure: value_of(exposure),
                    fog: value_of(fog),
                    water: value_of(water),
                    nightlight: value_of(nightlight),
                    ambience: value_of(ambience),
                    slippery: value_of(slippery),
                    lights_fog_scale: value_of(lights_fog_scale),
                },
                end_of(lights_fog_scale),
            ),
        )
    }
}

impl Decode for Environment {
    open spec fn spec_parse(bytes: Seq<u8>, at: int) -> Result<(EnvironmentView, int), Failure> {
        spec_environment(bytes, at)
    }

    fn parse(parser: &mut Parser) -> (got: Result<Environment, ParseError>) {
        proof {
            reveal(spec_environment);
        }
        let skybox = at_field(Skybox::parse(parser), "skybox")?;
        let exposure = at_field(Exposure::parse(parser), "exposure")?;
        let fog = at_field(Fog::parse(parser), "fog")?;
        let water = at_field(Water::parse(parser), "water")?;
        let nightlight = at_field(parser.read_bool(), "nightlight")?;
        let ambience = at_field(Sound::parse(parser), "ambience")?;
        let slippery = at_field(parser.read_real32(), "slippery")?;
        let lights_fog_scale = at_field(parser.read_real32(), "lights_fog_scale")?;
        Ok(
            Environment {
                skybox,
                exposure,
                fog,
                water,
                nightlight,
                ambience,
                slippery,
                lights_fog_scale,
            },
        )
    }

    proof fn lemma_reads_ahead(a: Seq<u8>, b: Seq<u8>, at: int) {
        reveal(spec_environment);
        Skybox::lemma_reads_ahead(a, b, at);
        let skybox = field(Skybox::spec_parse(a, at), "skybox");
        let so_far = skybox is Ok;
        if so_far {
            lemma_same_later(a, b, at, end_of(skybox));
            Exposure::lemma_reads_ahead(a, b, end_of(skybox));
        }
        let exposure = field(Exposure::spec_parse(a, end_of(skybox)), "exposure");
        let so_far = so_far && exposure is Ok;
        if so_far {
            lemma_same_later(a, b, at, end_of(exposure));
            Fog::lemma_reads_ahead(a, b, end_of(exposure));
        }
        let fog = field(Fog::spec_parse(a, end_of(exposure)), "fog");
        let so_far = so_far && fog is Ok;
        if so_far {
            lemma_same_later(a, b, at, end_of(fog));
            Water::lemma_reads_ahead(a, b, end_of(fog));
        }
        let water = field(Water::spec_parse(a, end_of(fog)), "water");
        let so_far = so_far && water is Ok;
        if so_far {
            lemma_same_later(a, b, at, end_of(water));
            lemma_reads_bool(a, b, end_of(water));
        }
        let nightlight = field(spec_bool(a, end_of(water)), "nightlight");
        let so_far = so_far && nightlight is Ok;
        if so_far {
            lemma_same_later(a, b, at, end_of(nightlight));
            Sound::lemma_reads_ahead(a, b, end_of(nightlight));
        }
        let ambience = field(Sound::spec_parse(a, end_of(nightlight)), "ambience");
        let so_far = so_far && ambience is Ok;
        if so_far {
            lemma_same_later(a, b, at, end_of(ambience));
            lemma_reads_real32(a, b, end_of(ambience));
        }
        let slippery = field(spec_real32(a, end_of(ambience)), "slippery");
        let so_far = so_far && slippery is Ok;
        if so_far {
            lemma_same_later(a, b, at, end_of(slippery));
            lemma_reads_real32(a, b, end_of(slippery));
        }
    }
}

} // verus!
