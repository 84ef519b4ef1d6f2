//! Joints.

use crate::material::Rgba;
use crate::numeric::Real32;
use crate::parser::spec_real32x3x2;
use crate::parser::{Decode, Failure, ParseError, ParseErrorKind, Parser, Prefix};
use crate::parser::{
    agrees, at_field, end_of, fail, failed, field, option_view, seen_option, value_of, views,
};
use crate::parser::{ends_within, lemma_same_later, same_from};
use crate::parser::{
    lemma_reads_bool, lemma_reads_counted, lemma_reads_real32, lemma_reads_real32x2,
    lemma_reads_real32x3, lemma_reads_real32x3x2, lemma_reads_real32x4, lemma_reads_u32,
    lemma_reads_u32x2, lemma_reads_u8,
};
use crate::parser::{
    spec_bool, spec_counted, spec_real32, spec_real32x2, spec_real32x3, spec_real32x4, spec_u32,
    spec_u32x2, spec_u8,
};
use vstd::prelude::*;

verus! {

/// The way a joint holds two shapes together.
#[derive(Clone, Copy, Debug, PartialEq, Eq, Structural)]
pub enum Kind {
    Ball,
    Hinge,
    Prismatic,
    Rope,
}

impl View for Kind {
    type V = Kind;

    open spec fn view(&self) -> Kind {
        *self
    }
}

impl Kind {
    /// The number that stands for this value in a scene file.
    pub open spec fn code(self) -> u32 {
        match self {
            Kind::Ball => 1,
            Kind::Hinge => 2,
            Kind::Prismatic => 3,
            Kind::Rope => 4,
        }
    }
}

impl Decode for Kind {
    open spec fn spec_parse(bytes: Seq<u8>, at: int) -> Result<(Kind, int), Failure> {
        match spec_u32(bytes, at) {
            Err(failure) => Err(failure),
            Ok((code, end)) => if code == 1 {
                Ok((Kind::Ball, end))
            } else if code == 2 {
                Ok((Kind::Hinge, end))
            } else if code == 3 {
                Ok((Kind::Prismatic, end))
            } else if code == 4 {
                Ok((Kind::Rope, end))
            } else {
                fail(ParseErrorKind::NoReprIntMatch(code as u64), at)
            },
        }
    }

    fn parse(parser: &mut Parser) -> (got: Result<Kind, ParseError>) {
        let start = parser.position();
        let code = parser.read_u32()?;
        match code {
            1 => Ok(Kind::Ball),
            2 => Ok(Kind::Hinge),
            3 => Ok(Kind::Prismatic),
            4 => Ok(Kind::Rope),
            _ => parser.fail_at(ParseErrorKind::NoReprIntMatch(code as u64), start),
        }
    }

    proof fn lemma_reads_ahead(a: Seq<u8>, b: Seq<u8>, at: int) {
        lemma_reads_u32(a, b, at);
    }
}

/// One segment of a rope.
#[derive(Clone, Copy, Debug)]
pub struct Knot {
    pub from: [Real32; 3],
    pub to: [Real32; 3],
}

impl View for Knot {
    type V = Knot;

    open spec fn view(&self) -> Knot {
        *self
    }
}

/// What reading a knot at `at` gives: its parts one after the other.
#[verifier::opaque]
pub open spec fn spec_knot(bytes: Seq<u8>, at: int) -> Result<(Knot, int), Failure> {
    let from = field(spec_real32x3(bytes, at), "from");
    let to = field(spec_real32x3(bytes, end_of(from)), "to");
    if from is Err {
        failed(from)
    } else if to is Err {
        failed(to)
    } else {
        Ok(
            (
                Knot {
                    from: value_of(from),
                    to: value_of(to),
                },
                end_of(to),
            ),
        )
    }
}

impl Decode for Knot {
    open spec fn spec_parse(bytes: Seq<u8>, at: int) -> Result<(Knot, int), Failure> {
        spec_knot(bytes, at)
    }

    fn parse(parser: &mut Parser) -> (got: Result<Knot, ParseError>) {
        proof {
            reveal(spec_knot);
        }
        let from = at_field(parser.read_real32x3(), "from")?;
        let to = at_field(parser.read_real32x3(), "to")?;
        Ok(Knot { from, to })
    }

    proof fn lemma_reads_ahead(a: Seq<u8>, b: Seq<u8>, at: int) {
        reveal(spec_knot);
        lemma_reads_real32x3(a, b, at);
        let from = field(spec_real32x3(a, at), "from");
        let so_far = from is Ok;
        if so_far {
            lemma_same_later(a, b, at, end_of(from));
            lemma_reads_real32x3(a, b, end_of(from));
        }
    }
}

/// The rope of a rope joint.
#[derive(Clone, Debug)]
pub struct Rope {
    pub rgba: Rgba,
    pub float: Real32,
    pub strength: Real32,
    pub max_stretch: Real32,
    pub z_f32_2: [Real32; 2],
    pub z_u8: u8,
    pub knots: Vec<Knot>,
}

/// What a rope holds.
pub struct RopeView {
    pub rgba: Rgba,
    pub float: Real32,
    pub strength: Real32,
    pub max_stretch: Real32,
    pub z_f32_2: [Real32; 2],
    pub z_u8: u8,
    pub knots: Seq<Knot>,
}

impl View for Rope {
    type V = RopeView;

    open spec fn view(&self) -> RopeView {
        RopeView {
            rgba: self.rgba,
            float: self.float,
            strength: self.strength,
            max_stretch: self.max_stretch,
            z_f32_2: self.z_f32_2,
            z_u8: self.z_u8,
            knots: views(self.knots@),
        }
    }
}

/// What reading a rope at `at` gives: its parts one after the other.
#[verifier::opaque]
pub open spec fn spec_rope(bytes: Seq<u8>, at: int) -> Result<(RopeView, int), Failure> {
    let rgba = field(Rgba::spec_parse(bytes, at), "rgba");
    let float = field(spec_real32(bytes, end_of(rgba)), "float");
    let strength = field(spec_real32(bytes, end_of(float)), "strength");
    let max_stretch = field(spec_real32(bytes, end_of(strength)), "max_stretch");
    let z_f32_2 = field(spec_real32x2(bytes, end_of(max_stretch)), "z_f32_2");
    let z_u8 = field(spec_u8(bytes, end_of(z_f32_2)), "z_u8");
    let knots = field(spec_counted::<Knot>(bytes, end_of(z_u8), Prefix::U32), "knots");
    if rgba is Err {
        failed(rgba)
    } else if float is Err {
        failed(float)
    } else if strength is Err {
        failed(strength)
    } else if max_stretch is Err {
        failed(max_stretch)
    } else if z_f32_2 is Err {
        failed(z_f32_2)
    } else if z_u8 is Err {
        failed(z_u8)
    } else if knots is Err {
        failed(knots)
    } else {
        Ok(
            (
                RopeView {
                    rgba: value_of(rgba),
                    float: value_of(float),
                    strength: value_of(strength),
                    max_stretch: value_of(max_stretch),
                    z_f32_2: value_of(z_f32_2),
                    z_u8: value_of(z_u8),
                    knots: value_of(knots),
                },
                end_of(knots),
            ),
        )
    }
}

impl Decode for Rope {
    open spec fn spec_parse(bytes: Seq<u8>, at: int) -> Result<(RopeView, int), Failure> {
        spec_rope(bytes, at)
    }

    fn parse(parser: &mut Parser) -> (got: Result<Rope, ParseError>) {
        proof {
            reveal(spec_rope);
        }
        let rgba = at_field(Rgba::parse(parser), "rgba")?;
        let float = at_field(parser.read_real32(), "float")?;
        let strength = at_field(parser.read_real32(), "strength")?;
        let max_stretch = at_field(parser.read_real32(), "max_stretch")?;
        let z_f32_2 = at_field(parser.read_real32x2(), "z_f32_2")?;
        let z_u8 = at_field(parser.read_u8(), "z_u8")?;
        let knots = at_field(parser.read_counted::<Knot>(Prefix::U32), "knots")?;
        Ok(Rope { rgba, float, strength, max_stretch, z_f32_2, z_u8, knots })
    }

    proof fn lemma_reads_ahead(a: Seq<u8>, b: Seq<u8>, at: int) {
        reveal(spec_rope);
        Rgba::lemma_reads_ahead(a, b, at);
        let rgba = field(Rgba::spec_parse(a, at), "rgba");
        let so_far = rgba is Ok;
        if so_far {
            lemma_same_later(a, b, at, end_of(rgba));
            lemma_reads_real32(a, b, end_of(rgba));
        }
        let float = field(spec_real32(a, end_of(rgba)), "float");
        let so_far = so_far && float is Ok;
        if so_far {
            lemma_same_later(a, b, at, end_of(float));
            lemma_reads_real32(a, b, end_of(float));
        }
        let strength = field(spec_real32(a, end_of(float)), "strength");
        let so_far = so_far && strength is Ok;
        if so_far {
            lemma_same_later(a, b, at, end_of(strength));
            lemma_reads_real32(a, b, end_of(strength));
        }
        let max_stretch = field(spec_real32(a, end_of(strength)), "max_stretch");
        let so_far = so_far && max_stretch is Ok;
        if so_far {
            lemma_same_later(a, b, at, end_of(max_stretch));
            lemma_reads_real32x2(a, b, end_of(max_stretch));
        }
        let z_f32_2 = field(spec_real32x2(a, end_of(max_stretch)), "z_f32_2");
        let so_far = so_far && z_f32_2 is Ok;
        if so_far {
            lemma_same_later(a, b, at, end_of(z_f32_2));
            lemma_reads_u8(a, b, end_of(z_f32_2));
        }
        let z_u8 = field(spec_u8(a, end_of(z_f32_2)), "z_u8");
        let so_far = so_far && z_u8 is Ok;
        if so_far {
            lemma_same_later(a, b, at, end_of(z_u8));
            lemma_reads_counted::<Knot>(a, b, end_of(z_u8), Prefix::U32);
        }
    }
}

/// The rope of a joint of the given kind at `at`: a rope joint has a rope,
/// any other joint has none and takes no bytes for it.
pub open spec fn spec_joint_rope(bytes: Seq<u8>, at: int, kind: Kind) -> Result<
    (Option<RopeView>, int),
    Failure,
> {
    if kind == Kind::Rope {
        match Rope::spec_parse(bytes, at) {
            Ok((rope, end)) => Ok((Some(rope), end)),
            Err(failure) => Err(failure),
        }
    } else {
        Ok((None, at))
    }
}

/// Reading the rope of a joint looks at the bytes from `at` on and at no
/// others.
pub proof fn lemma_reads_joint_rope(a: Seq<u8>, b: Seq<u8>, at: int, kind: Kind)
    requires
        same_from(a, b, at),
    ensures
        spec_joint_rope(a, at, kind) == spec_joint_rope(b, at, kind),
        ends_within(spec_joint_rope(a, at, kind), a, at),
{
    reveal(same_from);
    Rope::lemma_reads_ahead(a, b, at);
}

/// Reads the rope of a joint of the given kind.
fn parse_joint_rope(parser: &mut Parser, kind: Kind) -> (got: Result<Option<Rope>, ParseError>)
    ensures
        final(parser).input() == old(parser).input(),
        agrees(
            seen_option(got),
            old(parser).cursor(),
            final(parser).cursor(),
            spec_joint_rope(old(parser).input(), old(parser).cursor(), kind),
        ),
{
    match kind {
        Kind::Rope => Ok(Some(Rope::parse(parser)?)),
        _ => Ok(None),
    }
}

/// A joint between two shapes.
#[derive(Clone, Debug)]
pub struct Joint {
    pub kind: Kind,
    pub shape_handles: [u32; 2],
    pub shape_positions: [[Real32; 3]; 2],
    pub hinge_or_prismatic_rot: [[Real32; 3]; 2],
    pub connected: bool,
    pub collisions: bool,
    pub rot_strength: Real32,
    pub rot_spring: Real32,
    pub ball_rot: [Real32; 4],
    pub hinge_min_max: [Real32; 2],
    pub z_f32_2: [Real32; 2],
    pub size: Real32,
    /// The rope, which a joint of kind `Rope` has and no other.
    pub rope: Option<Rope>,
}

/// What a joint holds.
pub struct JointView {
    pub kind: Kind,
    pub shape_handles: [u32; 2],
    pub shape_positions: [[Real32; 3]; 2],
    pub hinge_or_prismatic_rot: [[Real32; 3]; 2],
    pub connected: bool,
    pub collisions: bool,
    pub rot_strength: Real32,
    pub rot_spring: Real32,
    pub ball_rot: [Real32; 4],
    pub hinge_min_max: [Real32; 2],
    pub z_f32_2: [Real32; 2],
    pub size: Real32,
    pub rope: Option<RopeView>,
}

impl View for Joint {
    type V = JointView;

    open spec fn view(&self) -> JointView {
        JointView {
            kind: self.kind,
            shape_handles: self.shape_handles,
            shape_positions: self.shape_positions,
            hinge_or_prismatic_rot: self.hinge_or_prismatic_rot,
            connected: self.connected,
            collisions: self.collisions,
            rot_strength: self.rot_strength,
            rot_spring: self.rot_spring,
            ball_rot: self.ball_rot,
            hinge_min_max: self.hinge_min_max,
            z_f32_2: self.z_f32_2,
            size: self.size,
            rope: option_view(self.rope),
        }
    }
}

/// What reading a joint at `at` gives: its parts one after the other.
#[verifier::opaque]
pub open spec fn spec_joint(bytes: Seq<u8>, at: int) -> Result<(JointView, int), Failure> {
    let kind = field(Kind::spec_parse(bytes, at), "kind");
    let shape_handles = field(spec_u32x2(bytes, end_of(kind)), "shape_handles");
    let shape_positions = field(spec_real32x3x2(bytes, end_of(shape_handles)), "shape_positions");
    let hinge_or_prismatic_rot = field(
        spec_real32x3x2(bytes, end_of(shape_positions)),
        "hinge_or_prismatic_rot",
    );
    let connected = field(spec_bool(bytes, end_of(hinge_or_prismatic_rot)), "connected");
    let collisions = field(spec_bool(bytes, end_of(connected)), "collisions");
    let rot_strength = field(spec_real32(bytes, end_of(collisions)), "rot_strength");
    let rot_spring = field(spec_real32(bytes, end_of(rot_strength)), "rot_spring");
    let ball_rot = field(spec_real32x4(bytes, end_of(rot_spring)), "ball_rot");
    let hinge_min_max = field(spec_real32x2(bytes, end_of(ball_rot)), "hinge_min_max");
    let z_f32_2 = field(spec_real32x2(bytes, end_of(hinge_min_max)), "z_f32_2");
    let size = field(spec_real32(bytes, end_of(z_f32_2)), "size");
    let rope = field(spec_joint_rope(bytes, end_of(size), value_of(kind)), "rope");
    if kind is Err {
        failed(kind)
    } else if shape_handles is Err {
        failed(shape_handles)
    } else if shape_positions is Err {
        failed(shape_positions)
    } else if hinge_or_prismatic_rot is Err {
        failed(hinge_or_prismatic_rot)
    } else if connected is Err {
        failed(connected)
    } else if collisions is Err {
        failed(collisions)
    } else if rot_strength is Err {
        failed(rot_strength)
    } else if rot_spring is Err {
        failed(rot_spring)
    } else if ball_rot is Err {
        failed(ball_rot)
    } else if hinge_min_max is Err {
        failed(hinge_min_max)
    } else if z_f32_2 is Err {
        failed(z_f32_2)
    } else if size is Err {
        failed(size)
    } else if rope is Err {
        failed(rope)
    } else {
        Ok(
            (
                JointView {
                    kind: value_of(kind),
                    shape_handles: value_of(shape_handles),
                    shape_positions: value_of(shape_positions),
                    hinge_or_prismatic_rot: value_of(hinge_or_prismatic_rot),
                    connected: value_of(connected),
                    collisions: value_of(collisions),
                    rot_strength: value_of(rot_strength),
                    rot_spring: value_of(rot_spring),
                    ball_rot: value_of(ball_rot),
                    hinge_min_max: value_of(hinge_min_max),
                    z_f32_2: value_of(z_f32_2),
                    size: value_of(size),
                    rope: value_of(rope),
                },
                end_of(rope),
            ),
        )
    }
}

impl Decode for Joint {
    open spec fn spec_parse(bytes: Seq<u8>, at: int) -> Result<(JointView, int), Failure> {
        spec_joint(bytes, at)
    }

    fn parse(parser: &mut Parser) -> (got: Result<Joint, ParseError>) {
        proof {
            reveal(spec_joint);
        }
        let kind = at_field(Kind::parse(parser), "kind")?;
        let shape_handles = at_field(parser.read_u32x2(), "shape_handles")?;
        let shape_positions = at_field(parser.read_real32x3x2(), "shape_positions")?;
        let hinge_or_prismatic_rot = at_field(parser.read_real32x3x2(), "hinge_or_prismatic_rot")?;
        let connected = at_field(parser.read_bool(), "connected")?;
        let collisions = at_field(parser.read_bool(), "collisions")?;
        let rot_strength = at_field(parser.read_real32(), "rot_strength")?;
        let rot_spring = at_field(parser.read_real32(), "rot_spring")?;
        let ball_rot = at_field(parser.read_real32x4(), "ball_rot")?;
        let hinge_min_max = at_field(parser.read_real32x2(), "hinge_min_max")?;
        let z_f32_2 = at_field(parser.read_real32x2(), "z_f32_2")?;
        let size = at_field(parser.read_real32(), "size")?;
        let rope = at_field(parse_joint_rope(parser, kind), "rope")?;
        Ok(
            Joint {
                kind,
                shape_handles,
                shape_positions,
                hinge_or_prismatic_rot,
                connected,
                collisions,
                rot_strength,
                rot_spring,
                ball_rot,
                hinge_min_max,
                z_f32_2,
                size,
                rope,
            },
        )
    }

    proof fn lemma_reads_ahead(a: Seq<u8>, b: Seq<u8>, at: int) {
        reveal(spec_joint);
        Kind::lemma_reads_ahead(a, b, at);
        let kind = field(Kind::spec_parse(a, at), "kind");
        let so_far = kind is Ok;
        if so_far {
            lemma_same_later(a, b, at, end_of(kind));
            lemma_reads_u32x2(a, b, end_of(kind));
        }
        let shape_handles = field(spec_u32x2(a, end_of(kind)), "shape_handles");
        let so_far = so_far && shape_handles is Ok;
        if so_far {
            lemma_same_later(a, b, at, end_of(shape_handles));
            lemma_reads_real32x3x2(a, b, end_of(shape_handles));
        }
        let shape_positions = field(spec_real32x3x2(a, end_of(shape_handles)), "shape_positions");
        let so_far = so_far && shape_positions is Ok;
        if so_far {
            lemma_same_later(a, b, at, end_of(shape_positions));
            lemma_reads_real32x3x2(a, b, end_of(shape_positions));
        }
        let hinge_or_prismatic_rot = field(
            spec_real32x3x2(a, end_of(shape_positions)),
            "hinge_or_prismatic_rot",
        );
        let so_far = so_far && hinge_or_prismatic_rot is Ok;
        if so_far {
            lemma_same_later(a, b, at, end_of(hinge_or_prismatic_rot));
            lemma_reads_bool(a, b, end_of(hinge_or_prismatic_rot));
        }
        let connected = field(spec_bool(a, end_of(hinge_or_prismatic_rot)), "connected");
        let so_far = so_far && connected is Ok;
        if so_far {
            lemma_same_later(a, b, at, end_of(connected));
            lemma_reads_bool(a, b, end_of(connected));
        }
        let collisions = field(spec_bool(a, end_of(connected)), "collisions");
        let so_far = so_far && collisions is Ok;
        if so_far {
            lemma_same_later(a, b, at, end_of(collisions));
            lemma_reads_real32(a, b, end_of(collisions));
        }
        let rot_strength = field(spec_real32(a, end_of(collisions)), "rot_strength");
        let so_far = so_far && rot_strength is Ok;
        if so_far {
            lemma_same_later(a, b, at, end_of(rot_strength));
            lemma_reads_real32(a, b, end_of(rot_strength));
        }
        let rot_spring = field(spec_real32(a, end_of(rot_strength)), "rot_spring");
        let so_far = so_far && rot_spring is Ok;
        if so_far {
            lemma_same_later(a, b, at, end_of(rot_spring));
            lemma_reads_real32x4(a, b, end_of(rot_spring));
        }
        let ball_rot = field(spec_real32x4(a, end_of(rot_spring)), "ball_rot");
        let so_far = so_far && ball_rot is Ok;
        if so_far {
            lemma_same_later(a, b, at, end_of(ball_rot));
            lemma_reads_real32x2(a, b, end_of(ball_rot));
        }
        let hinge_min_max = field(spec_real32x2(a, end_of(ball_rot)), "hinge_min_max");
        let so_far = so_far && hinge_min_max is Ok;
        if so_far {
            lemma_same_later(a, b, at, end_of(hinge_min_max));
            lemma_reads_real32x2(a, b, end_of(hinge_min_max));
        }
        let z_f32_2 = field(spec_real32x2(a, end_of(hinge_min_max)), "z_f32_2");
        let so_far = so_far && z_f32_2 is Ok;
        if so_far {
            lemma_same_later(a, b, at, end_of(z_f32_2));
            lemma_reads_real32(a, b, end_of(z_f32_2));
        }
        let size = field(spec_real32(a, end_of(z_f32_2)), "size");
        let so_far = so_far && size is Ok;
        if so_far {
            lemma_same_later(a, b, at, end_of(size));
            lemma_reads_joint_rope(a, b, end_of(size), value_of(kind));
        }
    }
}

} // verus!
