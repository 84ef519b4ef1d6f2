//! Placements and outlines.

use crate::numeric::Real32;
use crate::parser::{Decode, Failure, ParseError, Parser};
use crate::parser::{at_field, end_of, failed, field, value_of};
use crate::parser::{lemma_reads_real32, lemma_reads_real32x3, lemma_reads_real32x4};
use crate::parser::{lemma_same_later};
use crate::parser::{spec_real32, spec_real32x3, spec_real32x4};
use vstd::prelude::*;

verus! {

/// A placement: where something is and how it is turned.
#[derive(Clone, Copy, Debug)]
pub struct Transform {
    /// x, y, z.
    pub pos: [Real32; 3],
    /// A quaternion: x, y, z, w.
    pub rot: [Real32; 4],
}

impl View for Transform {
    type V = Transform;

    open spec fn view(&self) -> Transform {
        *self
    }
}

/// What reading a transform at `at` gives: its parts one after the other.
#[verifier::opaque]
pub open spec fn spec_transform(bytes: Seq<u8>, at: int) -> Result<(Transform, int), Failure> {
    let pos = field(spec_real32x3(bytes, at), "pos");
    let rot = field(spec_real32x4(bytes, end_of(pos)), "rot");
    if pos is Err {
        failed(pos)
    } else if rot is Err {
        failed(rot)
    } else {
        Ok(
            (
                Transform {
                    pos: value_of(pos),
                    rot: value_of(rot),
                },
                end_of(rot),
            ),
        )
    }
}

impl Decode for Transform {
    open spec fn spec_parse(bytes: Seq<u8>, at: int) -> Result<(Transform, int), Failure> {
        spec_transform(bytes, at)
    }

    fn parse(parser: &mut Parser) -> (got: Result<Transform, ParseError>) {
        proof {
            reveal(spec_transform);
        }
        let pos = at_field(parser.read_real32x3(), "pos")?;
        let rot = at_field(parser.read_real32x4(), "rot")?;
        Ok(Transform { pos, rot })
    }

    proof fn lemma_reads_ahead(a: Seq<u8>, b: Seq<u8>, at: int) {
        reveal(spec_transform);
        lemma_reads_real32x3(a, b, at);
        let pos = field(spec_real32x3(a, at), "pos");
        let so_far = pos is Ok;
        if so_far {
            lemma_same_later(a, b, at, end_of(pos));
            lemma_reads_real32x4(a, b, end_of(pos));
        }
    }
}

impl Default for Transform {
    /// At the origin and not turned.
    fn default() -> (transform: Transform)
        ensures
            transform.pos@ == seq![Real32(0), Real32(0), Real32(0)],
            transform.rot@ == seq![Real32(0), Real32(0), Real32(0), Real32(0x3f80_0000)],
    {
        Transform {
            pos: [Real32(0), Real32(0), Real32(0)],
            rot: [Real32(0), Real32(0), Real32(0), Real32(0x3f80_0000)],
        }
    }
}

/// A corner of an outline on the ground.
#[derive(Clone, Copy, Debug)]
pub struct BoundaryVertex {
    pub x: Real32,
    pub z: Real32,
}

impl View for BoundaryVertex {
    type V = BoundaryVertex;

    open spec fn view(&self) -> BoundaryVertex {
        *self
    }
}

/// What reading a boundary vertex at `at` gives: its parts one after the other.
#[verifier::opaque]
pub open spec fn spec_boundary_vertex(bytes: Seq<u8>, at: int) -> Result<
    (BoundaryVertex, int),
    Failure,
> {
    let x = field(spec_real32(bytes, at), "x");
    let z = field(spec_real32(bytes, end_of(x)), "z");
    if x is Err {
        failed(x)
    } else if z is Err {
        failed(z)
    } else {
        Ok(
            (
                BoundaryVertex {
                    x: value_of(x),
                    z: value_of(z),
                },
                end_of(z),
            ),
        )
    }
}

impl Decode for BoundaryVertex {
    open spec fn spec_parse(bytes: Seq<u8>, at: int) -> Result<(BoundaryVertex, int), Failure> {
        spec_boundary_vertex(bytes, at)
    }

    fn parse(parser: &mut Parser) -> (got: Result<BoundaryVertex, ParseError>) {
        proof {
            reveal(spec_boundary_vertex);
        }
        let x = at_field(parser.read_real32(), "x")?;
        let z = at_field(parser.read_real32(), "z")?;
        Ok(BoundaryVertex { x, z })
    }

    proof fn lemma_reads_ahead(a: Seq<u8>, b: Seq<u8>, at: int) {
        reveal(spec_boundary_vertex);
        lemma_reads_real32(a, b, at);
        let x = field(spec_real32(a, at), "x");
        let so_far = x is Ok;
        if so_far {
            lemma_same_later(a, b, at, end_of(x));
            lemma_reads_real32(a, b, end_of(x));
        }
    }
}

} // verus!
