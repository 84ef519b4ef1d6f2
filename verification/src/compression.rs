//! The envelope of a scene file: a file holds a scene as it is, or
//! compressed with zlib.

use crate::parser::{Failure, ParseError};
use crate::scene::{decoded, has_magic, parse_uncompressed, Scene, SceneView};
use vstd::prelude::*;

verus! {

/// What flate2's `ZlibDecoder` reads from a reader over `bytes` until its
/// end: the bytes that the zlib stream at the beginning of `bytes` stands
/// for, or `None` where reading fails.
pub uninterp spec fn zlib_inflated(bytes: Seq<u8>) -> Option<Seq<u8>>;

/// The error of the standard library's readers; nothing is said of what
/// it holds.
#[verifier::external_type_specification]
#[verifier::external_body]
pub struct ExIoError(std::io::Error);

/// `flate2::read::ZlibDecoder::new` over the given bytes, read to its end
/// with `std::io::Read::read_to_end`. What it gives depends on the bytes
/// alone.
#[verifier::external_body]
fn zlib_inflate(bytes: &[u8]) -> (inflated: Result<Vec<u8>, std::io::Error>)
    ensures
        match inflated {
            Ok(out) => zlib_inflated(bytes@) == Some(out@),
            Err(_) => zlib_inflated(bytes@) is None,
        },
{
    let mut out = Vec::new();
    std::io::Read::read_to_end(&mut flate2::read::ZlibDecoder::new(bytes), &mut out)?;
    Ok(out)
}

/// The bytes are neither a scene as it is nor a zlib stream.
#[derive(Clone, Copy, Debug, PartialEq, Eq, Structural)]
pub struct InflateError;

/// Why the bytes of a file gave no scene.
#[derive(Debug)]
pub enum SceneError {
    /// The bytes are neither a scene as it is nor a zlib stream.
    Inflate,
    /// The bytes, inflated where they had to be, are no scene.
    Parse(ParseError),
}

/// The bytes of the scene that a file with the given bytes holds: the
/// bytes themselves where they begin as a scene begins, else what they
/// stand for as a zlib stream.
pub open spec fn uncompressed(bytes: Seq<u8>) -> Option<Seq<u8>> {
    if has_magic(bytes) {
        Some(bytes)
    } else {
        zlib_inflated(bytes)
    }
}

/// Whether the bytes begin as a scene file begins.
pub fn starts_with_magic(bytes: &[u8]) -> (starts: bool)
    ensures
        starts == has_magic(bytes@),
{
    let starts = bytes.len() >= 5 && bytes[0] == 0x54 && bytes[1] == 0x44 && bytes[2] == 0x42
        && bytes[3] == 0x49 && bytes[4] == 0x4e;
    proof {
        if bytes@.len() >= 5 {
            let head = bytes@.subrange(0, 5);
            assert(head[0] == bytes@[0] && head[1] == bytes@[1] && head[2] == bytes@[2] && head[3]
                == bytes@[3] && head[4] == bytes@[4]);
            assert(starts == (head =~= crate::scene::magic()));
        }
    }
    starts
}

/// The bytes of the scene that a file with the given bytes holds.
pub fn decompress_if_needed(bytes: Vec<u8>) -> (plain: Result<Vec<u8>, InflateError>)
    ensures
        match plain {
            Ok(scene) => uncompressed(bytes@) == Some(scene@),
            Err(_) => uncompressed(bytes@) is None,
        },
{
    if starts_with_magic(bytes.as_slice()) {
        Ok(bytes)
    } else {
        match zlib_inflate(bytes.as_slice()) {
            Ok(inflated) => Ok(inflated),
            Err(_) => Err(InflateError),
        }
    }
}

/// What the bytes of a file give: the scene that they hold, as they are or
/// compressed, or why they hold none.
pub open spec fn file_decoded(bytes: Seq<u8>) -> Result<SceneView, Option<Failure>> {
    match uncompressed(bytes) {
        None => Err(None),
        Some(plain) => match decoded(plain) {
            Ok(scene) => Ok(scene),
            Err(failure) => Err(Some(failure)),
        },
    }
}

/// Reads the scene that a file with the given bytes holds.
pub fn parse_bytes(bytes: Vec<u8>) -> (scene: Result<Scene, SceneError>)
    ensures
        match scene {
            Ok(scene) => file_decoded(bytes@) == Ok::<SceneView, Option<Failure>>(scene@),
            Err(SceneError::Inflate) => file_decoded(bytes@) == Err::<
                SceneView,
                Option<Failure>,
            >(None),
            Err(SceneError::Parse(error)) => file_decoded(bytes@) == Err::<
                SceneView,
                Option<Failure>,
            >(Some(error@)),
        },
{
    match decompress_if_needed(bytes) {
        Err(_) => Err(SceneError::Inflate),
        Ok(plain) => match parse_uncompressed(plain.as_slice()) {
            Ok(scene) => Ok(scene),
            Err(error) => Err(SceneError::Parse(error)),
        },
    }
}

} // verus!
