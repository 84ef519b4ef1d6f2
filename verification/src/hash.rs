//! Content hashes: the 64-bit digest of a value's canonical bytes, and the
//! text that names a hash in file and node names.

use crate::material::Material;
use crate::numeric::{le_u64, push_le_u32, push_le_u64, read_le_u64, u32_le_bytes, u64_le_bytes};
use crate::numeric::lemma_u64_le_round_trip;
use crate::voxels::Voxels;
use std::collections::hash_map::DefaultHasher;
use std::hash::Hasher;
use vstd::prelude::*;
use vstd::std_specs::hash::DefaultHasherAdditionalSpecFns;

verus! {

/// The digest of a sequence of bytes: what the default hasher of the
/// standard library makes of them when they are written to it at once.
pub open spec fn digest(bytes: Seq<u8>) -> u64 {
    DefaultHasher::spec_finish(seq![bytes])
}

/// A value with a canonical sequence of bytes, by which it is hashed.
pub trait Canonical {
    /// The canonical bytes of the value.
    spec fn canonical(&self) -> Seq<u8>;

    /// The canonical bytes of the value.
    fn to_canonical_bytes(&self) -> (bytes: Vec<u8>)
        ensures
            bytes@ == self.canonical(),
    ;
}

/// The canonical bytes of a material: the code of its kind, the bits of
/// its four colour channels, of its reflectivity, shininess, metalness and
/// emission, each in little-endian order, and one byte that is 1 where the
/// material is replaceable and 0 where it is not.
pub open spec fn material_bytes(material: Material) -> Seq<u8> {
    seq![material.kind.code()] + u32_le_bytes(material.rgba.0[0].0) + u32_le_bytes(
        material.rgba.0[1].0,
    ) + u32_le_bytes(material.rgba.0[2].0) + u32_le_bytes(material.rgba.0[3].0) + u32_le_bytes(
        material.reflectivity.0,
    ) + u32_le_bytes(material.shinyness.0) + u32_le_bytes(material.metalness.0) + u32_le_bytes(
        material.emission.0,
    ) + seq![
        if material.replacable {
            1u8
        } else {
            0u8
        },
    ]
}

/// The canonical bytes of the first `n` materials, one after the other.
pub open spec fn materials_bytes(materials: Seq<Material>, n: nat) -> Seq<u8>
    decreases n,
{
    if n == 0 {
        Seq::empty()
    } else {
        materials_bytes(materials, (n - 1) as nat) + material_bytes(materials[n - 1])
    }
}

impl Canonical for Material {
    open spec fn canonical(&self) -> Seq<u8> {
        material_bytes(*self)
    }

    fn to_canonical_bytes(&self) -> (bytes: Vec<u8>) {
        let mut bytes: Vec<u8> = Vec::new();
        bytes.push(self.kind.to_byte());
        push_le_u32(&mut bytes, self.rgba.0[0].0);
        push_le_u32(&mut bytes, self.rgba.0[1].0);
        push_le_u32(&mut bytes, self.rgba.0[2].0);
        push_le_u32(&mut bytes, self.rgba.0[3].0);
        push_le_u32(&mut bytes, self.reflectivity.0);
        push_le_u32(&mut bytes, self.shinyness.0);
        push_le_u32(&mut bytes, self.metalness.0);
        push_le_u32(&mut bytes, self.emission.0);
        bytes.push(
            if self.replacable {
                1
            } else {
                0
            },
        );
        assert(bytes@ =~= material_bytes(*self));
        bytes
    }
}

impl Canonical for [Material; 256] {
    /// The canonical bytes of a palette: those of its 256 materials.
    open spec fn canonical(&self) -> Seq<u8> {
        materials_bytes(self@, 256)
    }

    fn to_canonical_bytes(&self) -> (bytes: Vec<u8>) {
        let mut bytes: Vec<u8> = Vec::new();
        let mut i: usize = 0;
        while i < 256
            invariant
                i <= 256,
                bytes@ == materials_bytes(self@, i as nat),
            decreases 256 - i,
        {
            let mut one = self[i].to_canonical_bytes();
            bytes.append(&mut one);
            i = i + 1;
        }
        bytes
    }
}

impl Canonical for Voxels {
    /// The canonical bytes of a volume: its three sizes in little-endian
    /// order, then its stream.
    open spec fn canonical(&self) -> Seq<u8> {
        u32_le_bytes(self.size[0]) + u32_le_bytes(self.size[1]) + u32_le_bytes(self.size[2])
            + self.palette_index_runs@
    }

    fn to_canonical_bytes(&self) -> (bytes: Vec<u8>) {
        let mut bytes: Vec<u8> = Vec::new();
        push_le_u32(&mut bytes, self.size[0]);
        push_le_u32(&mut bytes, self.size[1]);
        push_le_u32(&mut bytes, self.size[2]);
        let ghost head = bytes@;
        let mut i: usize = 0;
        while i < self.palette_index_runs.len()
            invariant
                i <= self.palette_index_runs@.len(),
                bytes@ == head + self.palette_index_runs@.take(i as int),
            decreases self.palette_index_runs@.len() - i,
        {
            bytes.push(self.palette_index_runs[i]);
            i = i + 1;
            assert(bytes@ =~= head + self.palette_index_runs@.take(i as int));
        }
        assert(self.palette_index_runs@.take(i as int) =~= self.palette_index_runs@);
        assert(bytes@ =~= self.canonical());
        bytes
    }
}

/// The content hash of a value: the digest of its canonical bytes.
pub fn compute_n<H: Canonical>(to_hash: &H) -> (n: u64)
    ensures
        n == digest(to_hash.canonical()),
{
    let bytes = to_hash.to_canonical_bytes();
    let mut hasher = DefaultHasher::new();
    hasher.write(bytes.as_slice());
    assert(hasher@ =~= seq![bytes@]);
    hasher.finish()
}

/// The text that the base64 crate's `encode_config` makes of `bytes` with
/// the URL-safe alphabet and without padding.
pub uninterp spec fn base64_url(bytes: Seq<u8>) -> Seq<char>;

/// What the base64 crate's `decode_config` makes of `text` with the
/// URL-safe alphabet and without padding: the bytes, or `None` where it
/// rejects the text.
pub uninterp spec fn base64_url_decoded(text: Seq<char>) -> Option<Seq<u8>>;

/// The error of the base64 crate's decoding; nothing is said of what it
/// holds.
#[verifier::external_type_specification]
#[verifier::external_body]
pub struct ExDecodeError(base64::DecodeError);

/// `base64::encode_config` with the URL-safe alphabet and without padding,
/// on eight bytes. The text it gives depends on the bytes alone, and
/// `base64::decode_config` with the same configuration gives the bytes
/// back from it.
#[verifier::external_body]
fn base64_url_encode(bytes: &[u8; 8]) -> (text: String)
    ensures
        text@ == base64_url(bytes@),
        base64_url_decoded(text@) == Some(bytes@),
{
    base64::encode_config(bytes, base64::Config::new(base64::CharacterSet::UrlSafe, false))
}

/// `base64::decode_config` with the URL-safe alphabet and without padding.
/// Whether it accepts a text, and the bytes it gives, depend on the text
/// alone.
#[verifier::external_body]
fn base64_url_decode(text: &str) -> (bytes: Result<Vec<u8>, base64::DecodeError>)
    ensures
        match bytes {
            Ok(decoded) => base64_url_decoded(text@) == Some(decoded@),
            Err(_) => base64_url_decoded(text@) is None,
        },
{
    base64::decode_config(text, base64::Config::new(base64::CharacterSet::UrlSafe, false))
}

/// The hash that bytes stand for, if they stand for one: eight bytes are
/// a hash in little-endian order.
pub open spec fn hash_in(bytes: Seq<u8>) -> Option<u64> {
    if bytes.len() == 8 {
        Some(le_u64(bytes, 0))
    } else {
        None
    }
}

/// The hash that a text names, if it names one: the text has to stand for
/// eight bytes, which are the hash in little-endian order.
pub open spec fn named_hash(text: Seq<char>) -> Option<u64> {
    match base64_url_decoded(text) {
        Some(bytes) => hash_in(bytes),
        None => None,
    }
}

/// The hash that the bytes stand for, or `Err` where they are not eight.
pub fn n_from_bytes(bytes: &[u8]) -> (n: Result<u64, ()>)
    ensures
        match n {
            Ok(hash) => hash_in(bytes@) == Some(hash),
            Err(_) => hash_in(bytes@) is None,
        },
{
    if bytes.len() == 8 {
        Ok(read_le_u64(bytes, 0))
    } else {
        Err(())
    }
}

/// The eight bytes of a hash in little-endian order.
pub fn n_to_bytes(n: u64) -> (bytes: [u8; 8])
    ensures
        bytes@ == u64_le_bytes(n),
        hash_in(bytes@) == Some(n),
{
    let mut bytes: Vec<u8> = Vec::new();
    push_le_u64(&mut bytes, n);
    proof {
        lemma_u64_le_round_trip(n);
    }
    let array: [u8; 8] = [
        bytes[0],
        bytes[1],
        bytes[2],
        bytes[3],
        bytes[4],
        bytes[5],
        bytes[6],
        bytes[7],
    ];
    assert(array@ =~= u64_le_bytes(n));
    array
}

/// The text that names the hash `n`: its eight bytes in little-endian
/// order as URL-safe base64 without padding. The text names `n` and
/// nothing else.
pub fn n_to_str(n: u64) -> (text: String)
    ensures
        text@ == base64_url(u64_le_bytes(n)),
        named_hash(text@) == Some(n),
{
    let bytes = n_to_bytes(n);
    base64_url_encode(&bytes)
}

/// The hash that `string` names, or `Err` where it names none.
pub fn str_to_n(string: &str) -> (n: Result<u64, ()>)
    ensures
        match n {
            Ok(hash) => named_hash(string@) == Some(hash),
            Err(_) => named_hash(string@) is None,
        },
{
    match base64_url_decode(string) {
        Ok(bytes) => n_from_bytes(bytes.as_slice()),
        Err(_) => Err(()),
    }
}

} // verus!
