//! Reading the binary scene files of a voxel game, and preparing the voxels
//! of a scene for the level editor of the game.
//!
//! A scene file holds a tree of entities, the palettes that their voxels
//! refer to, and the surroundings of the scene. The library reads such a
//! file into a [`scene::Scene`] and offers what is needed to hand the
//! voxels of the scene on:
//!
//! - [`parser`] reads typed values from bytes and says what each read
//!   gives; the modules of the scene's parts ([`scene`], [`entity`],
//!   [`environment`], [`light`], [`joint`], [`vehicle`], [`script`],
//!   [`palette`], [`tags`], [`transform`]) are built on it.
//! - [`compression`] takes a scene file as it is or compressed.
//! - [`voxels`] lays run-length streams of palette indices over a box and
//!   encodes cells as such a stream; [`grid`] walks the cells of a box.
//! - [`remap`] moves the materials of a palette into the index ranges of
//!   their kinds; [`material`] holds the kinds and their ranges.
//! - [`split`] cuts a volume that is too large for one model into parts.
//! - [`hash`] gives values their content hashes and the hashes their
//!   names; [`store`] keeps one document for each palette and each volume
//!   once in its document.
//! - [`export`] puts these together for the shapes of a scene.
//! - [`attrs`] makes the texts of attributes of the editor's markup.
//!
//! The library does no input or output of its own and no arithmetic on
//! reals: reals are kept by their bits ([`numeric`]), and reading and
//! writing files is the caller's part.
//!
//! What every function gives is stated in its contract and proved. The
//! proof functions named `lemma_…` state what holds of the functions
//! together: that encoding cells anew keeps the voxels of a volume, that
//! the parts of a split volume hold its voxels and nothing else, that a
//! material that has to stay ends in the range of its kind, that a volume
//! is stored once, and that the version of a file decides nothing.

pub mod attrs;
pub mod compression;
pub mod entity;
pub mod environment;
pub mod export;
pub mod grid;
pub mod hash;
pub mod joint;
pub mod light;
pub mod material;
pub mod numeric;
pub mod palette;
pub mod parser;
pub mod remap;
pub mod scene;
pub mod script;
pub mod split;
pub mod store;
pub mod tags;
pub mod transform;
pub mod vehicle;
pub mod voxels;
