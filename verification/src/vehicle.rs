//! Vehicles.

use crate::numeric::Real32;
use crate::parser::{Decode, Failure, ParseError, Parser, Prefix};
use crate::parser::{agrees, as_read, at_field, end_of, failed, field, value_of, views};
use crate::parser::{ends_within, lemma_same_later, same_from};
use crate::parser::{
    lemma_reads_counted, lemma_reads_real32, lemma_reads_real32x3, lemma_reads_real32x6,
    lemma_reads_string, lemma_reads_u32, lemma_reads_u8,
};
use crate::parser::{
    spec_counted, spec_real32, spec_real32x3, spec_real32x6, spec_string, spec_u32, spec_u8,
};
use crate::transform::Transform;
use vstd::prelude::*;

verus! {

/// An exhaust pipe of a vehicle.
#[derive(Clone, Copy, Debug)]
pub struct Exhaust {
    pub transform: Transform,
    pub z_f32: Real32,
}

impl View for Exhaust {
    type V = Exhaust;

    open spec fn view(&self) -> Exhaust {
        *self
    }
}

/// What reading an exhaust at `at` gives: its parts one after the other.
#[verifier::opaque]
pub open spec fn spec_exhaust(bytes: Seq<u8>, at: int) -> Result<(Exhaust, int), Failure> {
    let transform = field(Transform::spec_parse(bytes, at), "transform");
    let z_f32 = field(spec_real32(bytes, end_of(transform)), "z_f32");
    if transform is Err {
        failed(transform)
    } else if z_f32 is Err {
        failed(z_f32)
    } else {
        Ok(
            (
                Exhaust {
                    transform: value_of(transform),
                    z_f32: value_of(z_f32),
                },
                end_of(z_f32),
            ),
        )
    }
}

impl Decode for Exhaust {
    open spec fn spec_parse(bytes: Seq<u8>, at: int) -> Result<(Exhaust, int), Failure> {
        spec_exhaust(bytes, at)
    }

    fn parse(parser: &mut Parser) -> (got: Result<Exhaust, ParseError>) {
        proof {
            reveal(spec_exhaust);
        }
        let transform = at_field(Transform::parse(parser), "transform")?;
        let z_f32 = at_field(parser.read_real32(), "z_f32")?;
        Ok(Exhaust { transform, z_f32 })
    }

    proof fn lemma_reads_ahead(a: Seq<u8>, b: Seq<u8>, at: int) {
        reveal(spec_exhaust);
        Transform::lemma_reads_ahead(a, b, at);
        let transform = field(Transform::spec_parse(a, at), "transform");
        let so_far = transform is Ok;
        if so_far {
            lemma_same_later(a, b, at, end_of(transform));
            lemma_reads_real32(a, b, end_of(transform));
        }
    }
}

/// A part that a vehicle cannot do without.
#[derive(Clone, Copy, Debug)]
pub struct Vital {
    pub body_handle: u32,
    pub z_f32: Real32,
    pub pos: [Real32; 3],
    pub shape_index: u32,
}

impl View for Vital {
    type V = Vital;

    open spec fn view(&self) -> Vital {
        *self
    }
}

/// What reading a vital at `at` gives: its parts one after the other.
#[verifier::opaque]
pub open spec fn spec_vital(bytes: Seq<u8>, at: int) -> Result<(Vital, int), Failure> {
    let body_handle = field(spec_u32(bytes, at), "body_handle");
    let z_f32 = field(spec_real32(bytes, end_of(body_handle)), "z_f32");
    let pos = field(spec_real32x3(bytes, end_of(z_f32)), "pos");
    let shape_index = field(spec_u32(bytes, end_of(pos)), "shape_index");
    if body_handle is Err {
        failed(body_handle)
    } else if z_f32 is Err {
        failed(z_f32)
    } else if pos is Err {
        failed(pos)
    } else if shape_index is Err {
        failed(shape_index)
    } else {
        Ok(
            (
                Vital {
                    body_handle: value_of(body_handle),
                    z_f32: value_of(z_f32),
                    pos: value_of(pos),
                    shape_index: value_of(shape_index),
                },
                end_of(shape_index),
            ),
        )
    }
}

impl Decode for Vital {
    open spec fn spec_parse(bytes: Seq<u8>, at: int) -> Result<(Vital, int), Failure> {
        spec_vital(bytes, at)
    }

    fn parse(parser: &mut Parser) -> (got: Result<Vital, ParseError>) {
        proof {
            reveal(spec_vital);
        }
        let body_handle = at_field(parser.read_u32(), "body_handle")?;
        let z_f32 = at_field(parser.read_real32(), "z_f32")?;
        let pos = at_field(parser.read_real32x3(), "pos")?;
        let shape_index = at_field(parser.read_u32(), "shape_index")?;
        Ok(Vital { body_handle, z_f32, pos, shape_index })
    }

    proof fn lemma_reads_ahead(a: Seq<u8>, b: Seq<u8>, at: int) {
        reveal(spec_vital);
        lemma_reads_u32(a, b, at);
        let body_handle = field(spec_u32(a, at), "body_handle");
        let so_far = body_handle is Ok;
        if so_far {
            lemma_same_later(a, b, at, end_of(body_handle));
            lemma_reads_real32(a, b, end_of(body_handle));
        }
        let z_f32 = field(spec_real32(a, end_of(body_handle)), "z_f32");
        let so_far = so_far && z_f32 is Ok;
        if so_far {
            lemma_same_later(a, b, at, end_of(z_f32));
            lemma_reads_real32x3(a, b, end_of(z_f32));
        }
        let pos = field(spec_real32x3(a, end_of(z_f32)), "pos");
        let so_far = so_far && pos is Ok;
        if so_far {
            lemma_same_later(a, b, at, end_of(pos));
            lemma_reads_u32(a, b, end_of(pos));
        }
    }
}

/// The engine sound of a vehicle.
#[derive(Clone, Debug)]
pub struct VehicleSound {
    pub name: String,
    pub pitch: Real32,
}

/// What a vehicle sound holds.
pub struct VehicleSoundView {
    pub name: Seq<char>,
    pub pitch: Real32,
}

impl View for VehicleSound {
    type V = VehicleSoundView;

    open spec fn view(&self) -> VehicleSoundView {
        VehicleSoundView {
            name: self.name@,
            pitch: self.pitch,
        }
    }
}

/// What reading a vehicle sound at `at` gives: its parts one after the other.
#[verifier::opaque]
pub open spec fn spec_vehicle_sound(bytes: Seq<u8>, at: int) -> Result<
    (VehicleSoundView, int),
    Failure,
> {
    let name = field(spec_string(bytes, at, Prefix::U32), "name");
    let pitch = field(spec_real32(bytes, end_of(name)), "pitch");
    if name is Err {
        failed(name)
    } else if pitch is Err {
        failed(pitch)
    } else {
        Ok(
            (
                VehicleSoundView {
                    name: value_of(name),
                    pitch: value_of(pitch),
                },
                end_of(pitch),
            ),
        )
    }
}

impl Decode for VehicleSound {
    open spec fn spec_parse(bytes: Seq<u8>, at: int) -> Result<(VehicleSoundView, int), Failure> {
        spec_vehicle_sound(bytes, at)
    }

    fn parse(parser: &mut Parser) -> (got: Result<VehicleSound, ParseError>) {
        proof {
            reveal(spec_vehicle_sound);
        }
        let name = at_field(parser.read_string(Prefix::U32), "name")?;
        let pitch = at_field(parser.read_real32(), "pitch")?;
        Ok(VehicleSound { name, pitch })
    }

    proof fn lemma_reads_ahead(a: Seq<u8>, b: Seq<u8>, at: int) {
        reveal(spec_vehicle_sound);
        lemma_reads_string(a, b, at, Prefix::U32);
        let name = field(spec_string(a, at, Prefix::U32), "name");
        let so_far = name is Ok;
        if so_far {
            lemma_same_later(a, b, at, end_of(name));
            lemma_reads_real32(a, b, end_of(name));
        }
    }
}

/// How a vehicle drives.
#[derive(Clone, Debug)]
pub struct VehicleProperties {
    /// In metres a second.
    pub max_speed: Real32,
    pub z1_f32: Real32,
    pub spring: Real32,
    pub damping: Real32,
    pub acceleration: Real32,
    pub strength: Real32,
    pub friction: Real32,
    pub z2_f32: Real32,
    pub z1_u8: u8,
    pub antispin: Real32,
    pub steerassist: Real32,
    pub z3_f32: Real32,
    pub antiroll: Real32,
    pub sound: VehicleSound,
}

/// What a set of vehicle properties holds.
pub struct VehiclePropertiesView {
    pub max_speed: Real32,
    pub z1_f32: Real32,
    pub spring: Real32,
    pub damping: Real32,
    pub acceleration: Real32,
    pub strength: Real32,
    pub friction: Real32,
    pub z2_f32: Real32,
    pub z1_u8: u8,
    pub antispin: Real32,
    pub steerassist: Real32,
    pub z3_f32: Real32,
    pub antiroll: Real32,
    pub sound: VehicleSoundView,
}

impl View for VehicleProperties {
    type V = VehiclePropertiesView;

    open spec fn view(&self) -> VehiclePropertiesView {
        VehiclePropertiesView {
            max_speed: self.max_speed,
            z1_f32: self.z1_f32,
            spring: self.spring,
            damping: self.damping,
            acceleration: self.acceleration,
            strength: self.strength,
            friction: self.friction,
            z2_f32: self.z2_f32,
            z1_u8: self.z1_u8,
            antispin: self.antispin,
            steerassist: self.steerassist,
            z3_f32: self.z3_f32,
            antiroll: self.antiroll,
            sound: self.sound@,
        }
    }
}

/// What reading a set of vehicle properties at `at` gives: its parts one after the other.
#[verifier::opaque]
pub open spec fn spec_vehicle_properties(bytes: Seq<u8>, at: int) -> Result<
    (VehiclePropertiesView, int),
    Failure,
> {
    let max_speed = field(spec_real32(bytes, at), "max_speed");
    let z1_f32 = field(spec_real32(bytes, end_of(max_speed)), "z1_f32");
    let spring = field(spec_real32(bytes, end_of(z1_f32)), "spring");
    let damping = field(spec_real32(bytes, end_of(spring)), "damping");
    let acceleration = field(spec_real32(bytes, end_of(damping)), "acceleration");
    let strength = field(spec_real32(bytes, end_of(acceleration)), "strength");
    let friction = field(spec_real32(bytes, end_of(strength)), "friction");
    let z2_f32 = field(spec_real32(bytes, end_of(friction)), "z2_f32");
    let z1_u8 = field(spec_u8(bytes, end_of(z2_f32)), "z1_u8");
    let antispin = field(spec_real32(bytes, end_of(z1_u8)), "antispin");
    let steerassist = field(spec_real32(bytes, end_of(antispin)), "steerassist");
    let z3_f32 = field(spec_real32(bytes, end_of(steerassist)), "z3_f32");
    let antiroll = field(spec_real32(bytes, end_of(z3_f32)), "antiroll");
    let sound = field(VehicleSound::spec_parse(bytes, end_of(antiroll)), "sound");
    if max_speed is Err {
        failed(max_speed)
    } else if z1_f32 is Err {
        failed(z1_f32)
    } else if spring is Err {
        failed(spring)
    } else if damping is Err {
        failed(damping)
    } else if acceleration is Err {
        failed(acceleration)
    } else if strength is Err {
        failed(strength)
    } else if friction is Err {
        failed(friction)
    } else if z2_f32 is Err {
        failed(z2_f32)
    } else if z1_u8 is Err {
        failed(z1_u8)
    } else if antispin is Err {
        failed(antispin)
    } else if steerassist is Err {
        failed(steerassist)
    } else if z3_f32 is Err {
        failed(z3_f32)
    } else if antiroll is Err {
        failed(antiroll)
    } else if sound is Err {
        failed(sound)
    } else {
        Ok(
            (
                VehiclePropertiesView {
                    max_speed: value_of(max_speed),
                    z1_f32: value_of(z1_f32),
                    spring: value_of(spring),
                    damping: value_of(damping),
                    acceleration: value_of(acceleration),
                    strength: value_of(strength),
                    friction: value_of(friction),
                    z2_f32: value_of(z2_f32),
                    z1_u8: value_of(z1_u8),
                    antispin: value_of(antispin),
                    steerassist: value_of(steerassist),
                    z3_f32: value_of(z3_f32),
                    antiroll: value_of(antiroll),
                    sound: value_of(sound),
                },
                end_of(sound),
            ),
        )
    }
}

impl Decode for VehicleProperties {
    open spec fn spec_parse(bytes: Seq<u8>, at: int) -> Result<
        (VehiclePropertiesView, int),
        Failure,
    > {
        spec_vehicle_properties(bytes, at)
    }

    fn parse(parser: &mut Parser) -> (got: Result<VehicleProperties, ParseError>) {
        proof {
            reveal(spec_vehicle_properties);
        }
        let max_speed = at_field(parser.read_real32(), "max_speed")?;
        let z1_f32 = at_field(parser.read_real32(), "z1_f32")?;
        let spring = at_field(parser.read_real32(), "spring")?;
        let damping = at_field(parser.read_real32(), "damping")?;
        let acceleration = at_field(parser.read_real32(), "acceleration")?;
        let strength = at_field(parser.read_real32(), "strength")?;
        let friction = at_field(parser.read_real32(), "friction")?;
        let z2_f32 = at_field(parser.read_real32(), "z2_f32")?;
        let z1_u8 = at_field(parser.read_u8(), "z1_u8")?;
        let antispin = at_field(parser.read_real32(), "antispin")?;
        let steerassist = at_field(parser.read_real32(), "steerassist")?;
        let z3_f32 = at_field(parser.read_real32(), "z3_f32")?;
        let antiroll = at_field(parser.read_real32(), "antiroll")?;
        let sound = at_field(VehicleSound::parse(parser), "sound")?;
        Ok(
            VehicleProperties {
                max_speed,
                z1_f32,
                spring,
                damping,
                acceleration,
                strength,
                friction,
                z2_f32,
                z1_u8,
                antispin,
                steerassist,
                z3_f32,
                antiroll,
                sound,
            },
        )
    }

    proof fn lemma_reads_ahead(a: Seq<u8>, b: Seq<u8>, at: int) {
        reveal(spec_vehicle_properties);
        lemma_reads_real32(a, b, at);
        let max_speed = field(spec_real32(a, at), "max_speed");
        let so_far = max_speed is Ok;
        if so_far {
            lemma_same_later(a, b, at, end_of(max_speed));
            lemma_reads_real32(a, b, end_of(max_speed));
        }
        let z1_f32 = field(spec_real32(a, end_of(max_speed)), "z1_f32");
        let so_far = so_far && z1_f32 is Ok;
        if so_far {
            lemma_same_later(a, b, at, end_of(z1_f32));
            lemma_reads_real32(a, b, end_of(z1_f32));
        }
        let spring = field(spec_real32(a, end_of(z1_f32)), "spring");
        let so_far = so_far && spring is Ok;
        if so_far {
            lemma_same_later(a, b, at, end_of(spring));
            lemma_reads_real32(a, b, end_of(spring));
        }
        let damping = field(spec_real32(a, end_of(spring)), "damping");
        let so_far = so_far && damping is Ok;
        if so_far {
            lemma_same_later(a, b, at, end_of(damping));
            lemma_reads_real32(a, b, end_of(damping));
        }
        let acceleration = field(spec_real32(a, end_of(damping)), "acceleration");
        let so_far = so_far && acceleration is Ok;
        if so_far {
            lemma_same_later(a, b, at, end_of(acceleration));
            lemma_reads_real32(a, b, end_of(acceleration));
        }
        let strength = field(spec_real32(a, end_of(acceleration)), "strength");
        let so_far = so_far && strength is Ok;
        if so_far {
            lemma_same_later(a, b, at, end_of(strength));
            lemma_reads_real32(a, b, end_of(strength));
        }
        let friction = field(spec_real32(a, end_of(strength)), "friction");
        let so_far = so_far && friction is Ok;
        if so_far {
            lemma_same_later(a, b, at, end_of(friction));
            lemma_reads_real32(a, b, end_of(friction));
        }
        let z2_f32 = field(spec_real32(a, end_of(friction)), "z2_f32");
        let so_far = so_far && z2_f32 is Ok;
        if so_far {
            lemma_same_later(a, b, at, end_of(z2_f32));
            lemma_reads_u8(a, b, end_of(z2_f32));
        }
        let z1_u8 = field(spec_u8(a, end_of(z2_f32)), "z1_u8");
        let so_far = so_far && z1_u8 is Ok;
        if so_far {
            lemma_same_later(a, b, at, end_of(z1_u8));
            lemma_reads_real32(a, b, end_of(z1_u8));
        }
        let antispin = field(spec_real32(a, end_of(z1_u8)), "antispin");
        let so_far = so_far && antispin is Ok;
        if so_far {
            lemma_same_later(a, b, at, end_of(antispin));
            lemma_reads_real32(a, b, end_of(antispin));
        }
        let steerassist = field(spec_real32(a, end_of(antispin)), "steerassist");
        let so_far = so_far && steerassist is Ok;
        if so_far {
            lemma_same_later(a, b, at, end_of(steerassist));
            lemma_reads_real32(a, b, end_of(steerassist));
        }
        let z3_f32 = field(spec_real32(a, end_of(steerassist)), "z3_f32");
        let so_far = so_far && z3_f32 is Ok;
        if so_far {
            lemma_same_later(a, b, at, end_of(z3_f32));
            lemma_reads_real32(a, b, end_of(z3_f32));
        }
        let antiroll = field(spec_real32(a, end_of(z3_f32)), "antiroll");
        let so_far = so_far && antiroll is Ok;
        if so_far {
            lemma_same_later(a, b, at, end_of(antiroll));
            VehicleSound::lemma_reads_ahead(a, b, end_of(antiroll));
        }
    }
}

/// Whether a number looks like the length of a sequence that follows a
/// vehicle rather than like the bits of the vehicle's last real: a length
/// is small and not zero.
pub open spec fn looks_like_length(number: u32) -> bool {
    0 < number < 16
}

/// Whether a number looks like the length of a sequence that follows a
/// vehicle.
pub fn is_plausible_length(number: u32) -> (plausible: bool)
    ensures
        plausible == looks_like_length(number),
{
    number > 0 && number < 16
}

/// The last real of a vehicle at `at`, which a vehicle may lack. The four
/// bytes at `at` are taken for what follows the vehicle where they look
/// like a length, and for the real where they do not.
pub open spec fn spec_arm_rot(bytes: Seq<u8>, at: int) -> Result<(Option<Real32>, int), Failure> {
    match spec_u32(bytes, at) {
        Err(failure) => Err(failure),
        Ok((number, end)) => if looks_like_length(number) {
            Ok((None, at))
        } else {
            Ok((Some(Real32(number)), end))
        },
    }
}

/// Reading the last real of a vehicle looks at the bytes from `at` on and
/// at no others.
pub proof fn lemma_reads_arm_rot(a: Seq<u8>, b: Seq<u8>, at: int)
    requires
        same_from(a, b, at),
    ensures
        spec_arm_rot(a, at) == spec_arm_rot(b, at),
        ends_within(spec_arm_rot(a, at), a, at),
{
    lemma_reads_u32(a, b, at);
}

/// Reads the last real of a vehicle, if the vehicle has it.
fn guess_arm_rot(parser: &mut Parser) -> (got: Result<Option<Real32>, ParseError>)
    ensures
        final(parser).input() == old(parser).input(),
        agrees(
            as_read(got),
            old(parser).cursor(),
            final(parser).cursor(),
            spec_arm_rot(old(parser).input(), old(parser).cursor()),
        ),
{
    let hypothetical_length = parser.peek_u32()?;
    if is_plausible_length(hypothetical_length) {
        Ok(None)
    } else {
        Ok(Some(parser.read_real32()?))
    }
}

/// A vehicle.
#[derive(Clone, Debug)]
pub struct Vehicle {
    pub z_u8_start: u8,
    pub body_handle: u32,
    pub transform: Transform,
    pub velocity: [Real32; 3],
    pub angular_velocity: [Real32; 3],
    pub z_f32_not_health: Real32,
    pub wheel_handles: Vec<u32>,
    pub properties: VehicleProperties,
    pub z_f32_3: [Real32; 3],
    pub player_pos: [Real32; 3],
    pub z_f32_6: [Real32; 6],
    pub difflock: Real32,
    pub z6_f32_eq_1: Real32,
    pub z_u32: u32,
    pub z2_u8: u8,
    pub z7_f32_eq_0: Real32,
    pub refs: Vec<u32>,
    pub exhausts: Vec<Exhaust>,
    pub vitals: Vec<Vital>,
    /// The last real of the vehicle, which not every vehicle has.
    pub arm_rot: Option<Real32>,
}

/// What a vehicle holds.
pub struct VehicleView {
    pub z_u8_start: u8,
    pub body_handle: u32,
    pub transform: Transform,
    pub velocity: [Real32; 3],
    pub angular_velocity: [Real32; 3],
    pub z_f32_not_health: Real32,
    pub wheel_handles: Seq<u32>,
    pub properties: VehiclePropertiesView,
    pub z_f32_3: [Real32; 3],
    pub player_pos: [Real32; 3],
    pub z_f32_6: [Real32; 6],
    pub difflock: Real32,
    pub z6_f32_eq_1: Real32,
    pub z_u32: u32,
    pub z2_u8: u8,
    pub z7_f32_eq_0: Real32,
    pub refs: Seq<u32>,
    pub exhausts: Seq<Exhaust>,
    pub vitals: Seq<Vital>,
    pub arm_rot: Option<Real32>,
}

impl View for Vehicle {
    type V = VehicleView;

    open spec fn view(&self) -> VehicleView {
        VehicleView {
            z_u8_start: self.z_u8_start,
            body_handle: self.body_handle,
            transform: self.transform,
            velocity: self.velocity,
            angular_velocity: self.angular_velocity,
            z_f32_not_health: self.z_f32_not_health,
            wheel_handles: views(self.wheel_handles@),
            properties: self.properties@,
            z_f32_3: self.z_f32_3,
            player_pos: self.player_pos,
            z_f32_6: self.z_f32_6,
            difflock: self.difflock,
            z6_f32_eq_1: self.z6_f32_eq_1,
            z_u32: self.z_u32,
            z2_u8: self.z2_u8,
            z7_f32_eq_0: self.z7_f32_eq_0,
            refs: views(self.refs@),
            exhausts: views(self.exhausts@),
            vitals: views(self.vitals@),
            arm_rot: self.arm_rot,
        }
    }
}

/// What reading a vehicle at `at` gives: its parts one after the other.
#[verifier::opaque]
pub open spec fn spec_vehicle(bytes: Seq<u8>, at: int) -> Result<(VehicleView, int), Failure> {
    let z_u8_start = field(spec_u8(bytes, at), "z_u8_start");
    let body_handle = field(spec_u32(bytes, end_of(z_u8_start)), "body_handle");
    let transform = field(Transform::spec_parse(bytes, end_of(body_handle)), "transform");
    let velocity = field(spec_real32x3(bytes, end_of(transform)), "velocity");
    let angular_velocity = field(spec_real32x3(bytes, end_of(velocity)), "angular_velocity");
    let z_f32_not_health = field(spec_real32(bytes, end_of(angular_velocity)), "z_f32_not_health");
    let wheel_handles = field(
        spec_counted::<u32>(bytes, end_of(z_f32_not_health), Prefix::U32),
        "wheel_handles",
    );
    let properties = field(
        VehicleProperties::spec_parse(bytes, end_of(wheel_handles)),
        "properties",
    );
    let z_f32_3 = field(spec_real32x3(bytes, end_of(properties)), "z_f32_3");
    let player_pos = field(spec_real32x3(bytes, end_of(z_f32_3)), "player_pos");
    let z_f32_6 = field(spec_real32x6(bytes, end_of(player_pos)), "z_f32_6");
    let difflock = field(spec_real32(bytes, end_of(z_f32_6)), "difflock");
    let z6_f32_eq_1 = field(spec_real32(bytes, end_of(difflock)), "z6_f32_eq_1");
    let z_u32 = field(spec_u32(bytes, end_of(z6_f32_eq_1)), "z_u32");
    let z2_u8 = field(spec_u8(bytes, end_of(z_u32)), "z2_u8");
    let z7_f32_eq_0 = field(spec_real32(bytes, end_of(z2_u8)), "z7_f32_eq_0");
    let refs = field(spec_counted::<u32>(bytes, end_of(z7_f32_eq_0), Prefix::U32), "refs");
    let exhausts = field(spec_counted::<Exhaust>(bytes, end_of(refs), Prefix::U32), "exhausts");
    let vitals = field(spec_counted::<Vital>(bytes, end_of(exhausts), Prefix::U32), "vitals");
    let arm_rot = field(spec_arm_rot(bytes, end_of(vitals)), "arm_rot");
    if z_u8_start is Err {
        failed(z_u8_start)
    } else if body_handle is Err {
        failed(body_handle)
    } else if transform is Err {
        failed(transform)
    } else if velocity is Err {
        failed(velocity)
    } else if angular_velocity is Err {
        failed(angular_velocity)
    } else if z_f32_not_health is Err {
        failed(z_f32_not_health)
    } else if wheel_handles is Err {
        failed(wheel_handles)
    } else if properties is Err {
        failed(properties)
    } else if z_f32_3 is Err {
        failed(z_f32_3)
    } else if player_pos is Err {
        failed(player_pos)
    } else if z_f32_6 is Err {
        failed(z_f32_6)
    } else if difflock is Err {
        failed(difflock)
    } else if z6_f32_eq_1 is Err {
        failed(z6_f32_eq_1)
    } else if z_u32 is Err {
        failed(z_u32)
    } else if z2_u8 is Err {
        failed(z2_u8)
    } else if z7_f32_eq_0 is Err {
        failed(z7_f32_eq_0)
    } else if refs is Err {
        failed(refs)
    } else if exhausts is Err {
        failed(exhausts)
    } else if vitals is Err {
        failed(vitals)
    } else if arm_rot is Err {
        failed(arm_rot)
    } else {
        Ok(
            (
                VehicleView {
                    z_u8_start: value_of(z_u8_start),
                    body_handle: value_of(body_handle),
                    transform: value_of(transform),
                    velocity: value_of(velocity),
                    angular_velocity: value_of(angular_velocity),
                    z_f32_not_health: value_of(z_f32_not_health),
                    wheel_handles: value_of(wheel_handles),
                    properties: value_of(properties),
                    z_f32_3: value_of(z_f32_3),
                    player_pos: value_of(player_pos),
                    z_f32_6: value_of(z_f32_6),
                    difflock: value_of(difflock),
                    z6_f32_eq_1: value_of(z6_f32_eq_1),
                    z_u32: value_of(z_u32),
                    z2_u8: value_of(z2_u8),
                    z7_f32_eq_0: value_of(z7_f32_eq_0),
                    refs: value_of(refs),
                    exhausts: value_of(exhausts),
                    vitals: value_of(vitals),
                    arm_rot: value_of(arm_rot),
                },
                end_of(arm_rot),
            ),
        )
    }
}

impl Decode for Vehicle {
    open spec fn spec_parse(bytes: Seq<u8>, at: int) -> Result<(VehicleView, int), Failure> {
        spec_vehicle(bytes, at)
    }

    fn parse(parser: &mut Parser) -> (got: Result<Vehicle, ParseError>) {
        proof {
            reveal(spec_vehicle);
        }
        let z_u8_start = at_field(parser.read_u8(), "z_u8_start")?;
        let body_handle = at_field(parser.read_u32(), "body_handle")?;
        let transform = at_field(Transform::parse(parser), "transform")?;
        let velocity = at_field(parser.read_real32x3(), "velocity")?;
        let angular_velocity = at_field(parser.read_real32x3(), "angular_velocity")?;
        let z_f32_not_health = at_field(parser.read_real32(), "z_f32_not_health")?;
        let wheel_handles = at_field(parser.read_counted::<u32>(Prefix::U32), "wheel_handles")?;
        let properties = at_field(VehicleProperties::parse(parser), "properties")?;
        let z_f32_3 = at_field(parser.read_real32x3(), "z_f32_3")?;
        let player_pos = at_field(parser.read_real32x3(), "player_pos")?;
        let z_f32_6 = at_field(parser.read_real32x6(), "z_f32_6")?;
        let difflock = at_field(parser.read_real32(), "difflock")?;
        let z6_f32_eq_1 = at_field(parser.read_real32(), "z6_f32_eq_1")?;
        let z_u32 = at_field(parser.read_u32(), "z_u32")?;
        let z2_u8 = at_field(parser.read_u8(), "z2_u8")?;
        let z7_f32_eq_0 = at_field(parser.read_real32(), "z7_f32_eq_0")?;
        let refs = at_field(parser.read_counted::<u32>(Prefix::U32), "refs")?;
        let exhausts = at_field(parser.read_counted::<Exhaust>(Prefix::U32), "exhausts")?;
        let vitals = at_field(parser.read_counted::<Vital>(Prefix::U32), "vitals")?;
        let arm_rot = at_field(guess_arm_rot(parser), "arm_rot")?;
        Ok(
            Vehicle {
                z_u8_start,
                body_handle,
                transform,
                velocity,
                angular_velocity,
                z_f32_not_health,
                wheel_handles,
                properties,
                z_f32_3,
                player_pos,
                z_f32_6,
                difflock,
                z6_f32_eq_1,
                z_u32,
                z2_u8,
                z7_f32_eq_0,
                refs,
                exhausts,
                vitals,
                arm_rot,
            },
        )
    }

    proof fn lemma_reads_ahead(a: Seq<u8>, b: Seq<u8>, at: int) {
        reveal(spec_vehicle);
        lemma_reads_u8(a, b, at);
        let z_u8_start = field(spec_u8(a, at), "z_u8_start");
        let so_far = z_u8_start is Ok;
        if so_far {
            lemma_same_later(a, b, at, end_of(z_u8_start));
            lemma_reads_u32(a, b, end_of(z_u8_start));
        }
        let body_handle = field(spec_u32(a, end_of(z_u8_start)), "body_handle");
        let so_far = so_far && body_handle is Ok;
        if so_far {
            lemma_same_later(a, b, at, end_of(body_handle));
            Transform::lemma_reads_ahead(a, b, end_of(body_handle));
        }
        let transform = field(Transform::spec_parse(a, end_of(body_handle)), "transform");
        let so_far = so_far && transform is Ok;
        if so_far {
            lemma_same_later(a, b, at, end_of(transform));
            lemma_reads_real32x3(a, b, end_of(transform));
        }
        let velocity = field(spec_real32x3(a, end_of(transform)), "velocity");
        let so_far = so_far && velocity is Ok;
        if so_far {
            lemma_same_later(a, b, at, end_of(velocity));
            lemma_reads_real32x3(a, b, end_of(velocity));
        }
        let angular_velocity = field(spec_real32x3(a, end_of(velocity)), "angular_velocity");
        let so_far = so_far && angular_velocity is Ok;
        if so_far {
            lemma_same_later(a, b, at, end_of(angular_velocity));
            lemma_reads_real32(a, b, end_of(angular_velocity));
        }
        let z_f32_not_health = field(spec_real32(a, end_of(angular_velocity)), "z_f32_not_health");
        let so_far = so_far && z_f32_not_health is Ok;
        if so_far {
            lemma_same_later(a, b, at, end_of(z_f32_not_health));
            lemma_reads_counted::<u32>(a, b, end_of(z_f32_not_health), Prefix::U32);
        }
        let wheel_handles = field(
            spec_counted::<u32>(a, end_of(z_f32_not_health), Prefix::U32),
            "wheel_handles",
        );
        let so_far = so_far && wheel_handles is Ok;
        if so_far {
            lemma_same_later(a, b, at, end_of(wheel_handles));
            VehicleProperties::lemma_reads_ahead(a, b, end_of(wheel_handles));
        }
        let properties = field(
            VehicleProperties::spec_parse(a, end_of(wheel_handles)),
            "properties",
        );
        let so_far = so_far && properties is Ok;
        if so_far {
            lemma_same_later(a, b, at, end_of(properties));
            lemma_reads_real32x3(a, b, end_of(properties));
        }
        let z_f32_3 = field(spec_real32x3(a, end_of(properties)), "z_f32_3");
        let so_far = so_far && z_f32_3 is Ok;
        if so_far {
            lemma_same_later(a, b, at, end_of(z_f32_3));
            lemma_reads_real32x3(a, b, end_of(z_f32_3));
        }
        let player_pos = field(spec_real32x3(a, end_of(z_f32_3)), "player_pos");
        let so_far = so_far && player_pos is Ok;
        if so_far {
            lemma_same_later(a, b, at, end_of(player_pos));
            lemma_reads_real32x6(a, b, end_of(player_pos));
        }
        let z_f32_6 = field(spec_real32x6(a, end_of(player_pos)), "z_f32_6");
        let so_far = so_far && z_f32_6 is Ok;
        if so_far {
            lemma_same_later(a, b, at, end_of(z_f32_6));
            lemma_reads_real32(a, b, end_of(z_f32_6));
        }
        let difflock = field(spec_real32(a, end_of(z_f32_6)), "difflock");
        let so_far = so_far && difflock is Ok;
        if so_far {
            lemma_same_later(a, b, at, end_of(difflock));
            lemma_reads_real32(a, b, end_of(difflock));
        }
        let z6_f32_eq_1 = field(spec_real32(a, end_of(difflock)), "z6_f32_eq_1");
        let so_far = so_far && z6_f32_eq_1 is Ok;
        if so_far {
            lemma_same_later(a, b, at, end_of(z6_f32_eq_1));
            lemma_reads_u32(a, b, end_of(z6_f32_eq_1));
        }
        let z_u32 = field(spec_u32(a, end_of(z6_f32_eq_1)), "z_u32");
        let so_far = so_far && z_u32 is Ok;
        if so_far {
            lemma_same_later(a, b, at, end_of(z_u32));
            lemma_reads_u8(a, b, end_of(z_u32));
        }
        let z2_u8 = field(spec_u8(a, end_of(z_u32)), "z2_u8");
        let so_far = so_far && z2_u8 is Ok;
        if so_far {
            lemma_same_later(a, b, at, end_of(z2_u8));
            lemma_reads_real32(a, b, end_of(z2_u8));
        }
        let z7_f32_eq_0 = field(spec_real32(a, end_of(z2_u8)), "z7_f32_eq_0");
        let so_far = so_far && z7_f32_eq_0 is Ok;
        if so_far {
            lemma_same_later(a, b, at, end_of(z7_f32_eq_0));
            lemma_reads_counted::<u32>(a, b, end_of(z7_f32_eq_0), Prefix::U32);
        }
        let refs = field(spec_counted::<u32>(a, end_of(z7_f32_eq_0), Prefix::U32), "refs");
        let so_far = so_far && refs is Ok;
        if so_far {
            lemma_same_later(a, b, at, end_of(refs));
            lemma_reads_counted::<Exhaust>(a, b, end_of(refs), Prefix::U32);
        }
        let exhausts = field(spec_counted::<Exhaust>(a, end_of(refs), Prefix::U32), "exhausts");
        let so_far = so_far && exhausts is Ok;
        if so_far {
            lemma_same_later(a, b, at, end_of(exhausts));
            lemma_reads_counted::<Vital>(a, b, end_of(exhausts), Prefix::U32);
        }
        let vitals = field(spec_counted::<Vital>(a, end_of(exhausts), Prefix::U32), "vitals");
        let so_far = so_far && vitals is Ok;
        if so_far {
            lemma_same_later(a, b, at, end_of(vitals));
            lemma_reads_arm_rot(a, b, end_of(vitals));
        }
    }
}

} // verus!
