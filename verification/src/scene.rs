//! Scenes.

use crate::entity::{
    lemma_reads_entity_list, parse_entity_list, spec_entity_list, Entity, EntityView,
};
use crate::environment::{Environment, EnvironmentView};
use crate::numeric::Real32;
use crate::palette::{Palette, PaletteView};
use crate::parser::{Decode, Failure, ParseError, ParseErrorKind, Parser, PathStep, Prefix};
use crate::parser::{at_field, end_of, fail, failed, field, seen, value_of, views};
use crate::parser::{
    lemma_reads_counted, lemma_reads_expect, lemma_reads_i32x3, lemma_reads_real32,
    lemma_reads_real32x2, lemma_reads_real32x3, lemma_reads_real32x7, lemma_reads_real32x8,
    lemma_reads_string, lemma_reads_u32, lemma_reads_u8, lemma_reads_u8x3, lemma_reads_u8x4,
    lemma_reads_u8x6,
};
use crate::parser::{lemma_same_later, same_from};
use crate::parser::{
    spec_counted, spec_expect, spec_i32x3, spec_real32, spec_real32x2, spec_real32x3, spec_real32x7,
    spec_real32x8, spec_string, spec_u32, spec_u8, spec_u8x3, spec_u8x4, spec_u8x6,
};
use crate::tags::{EntryView, Registry};
use crate::transform::{BoundaryVertex, Transform};
use vstd::prelude::*;

verus! {

/// A fire that burns in the scene.
#[derive(Clone, Copy, Debug)]
pub struct Fire {
    pub entity_handle: u32,
    pub pos: [Real32; 3],
    pub max_time: Real32,
    pub time: Real32,
    pub z_u8_6: [u8; 6],
}

impl View for Fire {
    type V = Fire;

    open spec fn view(&self) -> Fire {
        *self
    }
}

/// What reading a fire at `at` gives: its parts one after the other.
#[verifier::opaque]
pub open spec fn spec_fire(bytes: Seq<u8>, at: int) -> Result<(Fire, int), Failure> {
    let entity_handle = field(spec_u32(bytes, at), "entity_handle");
    let pos = field(spec_real32x3(bytes, end_of(entity_handle)), "pos");
    let max_time = field(spec_real32(bytes, end_of(pos)), "max_time");
    let time = field(spec_real32(bytes, end_of(max_time)), "time");
    let z_u8_6 = field(spec_u8x6(bytes, end_of(time)), "z_u8_6");
    if entity_handle is Err {
        failed(entity_handle)
    } else if pos is Err {
        failed(pos)
    } else if max_time is Err {
        failed(max_time)
    } else if time is Err {
        failed(time)
    } else if z_u8_6 is Err {
        failed(z_u8_6)
    } else {
        Ok(
            (
                Fire {
                    entity_handle: value_of(entity_handle),
                    pos: value_of(pos),
                    max_time: value_of(max_time),
                    time: value_of(time),
                    z_u8_6: value_of(z_u8_6),
                },
                end_of(z_u8_6),
            ),
        )
    }
}

impl Decode for Fire {
    open spec fn spec_parse(bytes: Seq<u8>, at: int) -> Result<(Fire, int), Failure> {
        spec_fire(bytes, at)
    }

    fn parse(parser: &mut Parser) -> (got: Result<Fire, ParseError>) {
        proof {
            reveal(spec_fire);
        }
        let entity_handle = at_field(parser.read_u32(), "entity_handle")?;
        let pos = at_field(parser.read_real32x3(), "pos")?;
        let max_time = at_field(parser.read_real32(), "max_time")?;
        let time = at_field(parser.read_real32(), "time")?;
        let z_u8_6 = at_field(parser.read_u8x6(), "z_u8_6")?;
        Ok(Fire { entity_handle, pos, max_time, time, z_u8_6 })
    }

    proof fn lemma_reads_ahead(a: Seq<u8>, b: Seq<u8>, at: int) {
        reveal(spec_fire);
        lemma_reads_u32(a, b, at);
        let entity_handle = field(spec_u32(a, at), "entity_handle");
        let so_far = entity_handle is Ok;
        if so_far {
            lemma_same_later(a, b, at, end_of(entity_handle));
            lemma_reads_real32x3(a, b, end_of(entity_handle));
        }
        let pos = field(spec_real32x3(a, end_of(entity_handle)), "pos");
        let so_far = so_far && pos is Ok;
        if so_far {
            lemma_same_later(a, b, at, end_of(pos));
            lemma_reads_real32(a, b, end_of(pos));
        }
        let max_time = field(spec_real32(a, end_of(pos)), "max_time");
        let so_far = so_far && max_time is Ok;
        if so_far {
            lemma_same_later(a, b, at, end_of(max_time));
            lemma_reads_real32(a, b, end_of(max_time));
        }
        let time = field(spec_real32(a, end_of(max_time)), "time");
        let so_far = so_far && time is Ok;
        if so_far {
            lemma_same_later(a, b, at, end_of(time));
            lemma_reads_u8x6(a, b, end_of(time));
        }
    }
}

/// The player.
#[derive(Clone, Copy, Debug)]
pub struct Player {
    pub z_i32_3: [i32; 3],
    pub z_f32: [Real32; 7],
    pub transform: Transform,
    pub yaw: Real32,
    pub pitch: Real32,
    pub velocity: [Real32; 3],
    pub health: Real32,
    pub z_f32_2: [Real32; 2],
}

impl View for Player {
    type V = Player;

    open spec fn view(&self) -> Player {
        *self
    }
}

/// What reading a player at `at` gives: its parts one after the other.
#[verifier::opaque]
pub open spec fn spec_player(bytes: Seq<u8>, at: int) -> Result<(Player, int), Failure> {
    let z_i32_3 = field(spec_i32x3(bytes, at), "z_i32_3");
    let z_f32 = field(spec_real32x7(bytes, end_of(z_i32_3)), "z_f32");
    let transform = field(Transform::spec_parse(bytes, end_of(z_f32)), "transform");
    let yaw = field(spec_real32(bytes, end_of(transform)), "yaw");
    let pitch = field(spec_real32(bytes, end_of(yaw)), "pitch");
    let velocity = field(spec_real32x3(bytes, end_of(pitch)), "velocity");
    let health = field(spec_real32(bytes, end_of(velocity)), "health");
    let z_f32_2 = field(spec_real32x2(bytes, end_of(health)), "z_f32_2");
    if z_i32_3 is Err {
        failed(z_i32_3)
    } else if z_f32 is Err {
        failed(z_f32)
    } else if transform is Err {
        failed(transform)
    } else if yaw is Err {
        failed(yaw)
    } else if pitch is Err {
        failed(pitch)
    } else if velocity is Err {
        failed(velocity)
    } else if health is Err {
        failed(health)
    } else if z_f32_2 is Err {
        failed(z_f32_2)
    } else {
        Ok(
            (
                Player {
                    z_i32_3: value_of(z_i32_3),
                    z_f32: value_of(z_f32),
                    transform: value_of(transform),
                    yaw: value_of(yaw),
                    pitch: value_of(pitch),
                    velocity: value_of(velocity),
                    health: value_of(health),
                    z_f32_2: value_of(z_f32_2),
                },
                end_of(z_f32_2),
            ),
        )
    }
}

impl Decode for Player {
    open spec fn spec_parse(bytes: Seq<u8>, at: int) -> Result<(Player, int), Failure> {
        spec_player(bytes, at)
    }

    fn parse(parser: &mut Parser) -> (got: Result<Player, ParseError>) {
        proof {
            reveal(spec_player);
        }
        let z_i32_3 = at_field(parser.read_i32x3(), "z_i32_3")?;
        let z_f32 = at_field(parser.read_real32x7(), "z_f32")?;
        let transform = at_field(Transform::parse(parser), "transform")?;
        let yaw = at_field(parser.read_real32(), "yaw")?;
        let pitch = at_field(parser.read_real32(), "pitch")?;
        let velocity = at_field(parser.read_real32x3(), "velocity")?;
        let health = at_field(parser.read_real32(), "health")?;
        let z_f32_2 = at_field(parser.read_real32x2(), "z_f32_2")?;
        Ok(Player { z_i32_3, z_f32, transform, yaw, pitch, velocity, health, z_f32_2 })
    }

    proof fn lemma_reads_ahead(a: Seq<u8>, b: Seq<u8>, at: int) {
        reveal(spec_player);
        lemma_reads_i32x3(a, b, at);
        let z_i32_3 = field(spec_i32x3(a, at), "z_i32_3");
        let so_far = z_i32_3 is Ok;
        if so_far {
            lemma_same_later(a, b, at, end_of(z_i32_3));
            lemma_reads_real32x7(a, b, end_of(z_i32_3));
        }
        let z_f32 = field(spec_real32x7(a, end_of(z_i32_3)), "z_f32");
        let so_far = so_far && z_f32 is Ok;
        if so_far {
            lemma_same_later(a, b, at, end_of(z_f32));
            Transform::lemma_reads_ahead(a, b, end_of(z_f32));
        }
        let transform = field(Transform::spec_parse(a, end_of(z_f32)), "transform");
        let so_far = so_far && transform is Ok;
        if so_far {
            lemma_same_later(a, b, at, end_of(transform));
            lemma_reads_real32(a, b, end_of(transform));
        }
        let yaw = field(spec_real32(a, end_of(transform)), "yaw");
        let so_far = so_far && yaw is Ok;
        if so_far {
            lemma_same_later(a, b, at, end_of(yaw));
            lemma_reads_real32(a, b, end_of(yaw));
        }
        let pitch = field(spec_real32(a, end_of(yaw)), "pitch");
        let so_far = so_far && pitch is Ok;
        if so_far {
            lemma_same_later(a, b, at, end_of(pitch));
            lemma_reads_real32x3(a, b, end_of(pitch));
        }
        let velocity = field(spec_real32x3(a, end_of(pitch)), "velocity");
        let so_far = so_far && velocity is Ok;
        if so_far {
            lemma_same_later(a, b, at, end_of(velocity));
            lemma_reads_real32(a, b, end_of(velocity));
        }
        let health = field(spec_real32(a, end_of(velocity)), "health");
        let so_far = so_far && health is Ok;
        if so_far {
            lemma_same_later(a, b, at, end_of(health));
            lemma_reads_real32x2(a, b, end_of(health));
        }
    }
}

/// The five bytes that a scene file begins with.
pub open spec fn magic() -> Seq<u8> {
    seq![0x54u8, 0x44u8, 0x42u8, 0x49u8, 0x4eu8]
}

/// The version of the format that the library was written for.
pub open spec fn expected_version() -> Seq<u8> {
    seq![0u8, 7u8, 1u8]
}

/// Whether the bytes begin as a scene file begins.
pub open spec fn has_magic(bytes: Seq<u8>) -> bool {
    bytes.len() >= 5 && bytes.subrange(0, 5) == magic()
}

/// A scene: everything that a level or a saved game holds.
#[derive(Debug)]
pub struct Scene {
    /// The version of the format that the file was written in. Another version
    /// than the expected one is no failure.
    pub version: [u8; 3],
    pub level: String,
    pub z_bytes4_eq_0: [u8; 4],
    pub shadow_volume: [Real32; 3],
    pub spawnpoint: Transform,
    pub player: Player,
    pub environment: Environment,
    pub z_f32_8: [Real32; 8],
    pub z_u8: u8,
    pub boundary_vertices: Vec<BoundaryVertex>,
    pub fires: Vec<Fire>,
    pub palettes: Vec<Palette>,
    pub registry: Registry,
    /// The roots of the tree of entities.
    pub entities: Vec<Entity>,
}

/// What a scene holds.
pub struct SceneView {
    pub version: [u8; 3],
    pub level: Seq<char>,
    pub z_bytes4_eq_0: [u8; 4],
    pub shadow_volume: [Real32; 3],
    pub spawnpoint: Transform,
    pub player: Player,
    pub environment: EnvironmentView,
    pub z_f32_8: [Real32; 8],
    pub z_u8: u8,
    pub boundary_vertices: Seq<BoundaryVertex>,
    pub fires: Seq<Fire>,
    pub palettes: Seq<PaletteView>,
    pub registry: Seq<EntryView>,
    pub entities: Seq<EntityView>,
}

impl View for Scene {
    type V = SceneView;

    open spec fn view(&self) -> SceneView {
        SceneView {
            version: self.version,
            level: self.level@,
            z_bytes4_eq_0: self.z_bytes4_eq_0,
            shadow_volume: self.shadow_volume,
            spawnpoint: self.spawnpoint,
            player: self.player,
            environment: self.environment@,
            z_f32_8: self.z_f32_8,
            z_u8: self.z_u8,
            boundary_vertices: views(self.boundary_vertices@),
            fires: views(self.fires@),
            palettes: views(self.palettes@),
            registry: self.registry@,
            entities: views(self.entities@),
        }
    }
}

/// What reading a scene at `at` gives: its parts one after the other.
#[verifier::opaque]
pub open spec fn spec_scene(bytes: Seq<u8>, at: int) -> Result<(SceneView, int), Failure> {
    let magic = field(spec_expect(bytes, at, magic()), "magic");
    let version = field(spec_u8x3(bytes, end_of(magic)), "version");
    let level = field(spec_string(bytes, end_of(version), Prefix::U32), "level");
    let z_bytes4_eq_0 = field(spec_u8x4(bytes, end_of(level)), "z_bytes4_eq_0");
    let shadow_volume = field(spec_real32x3(bytes, end_of(z_bytes4_eq_0)), "shadow_volume");
    let spawnpoint = field(Transform::spec_parse(bytes, end_of(shadow_volume)), "spawnpoint");
    let player = field(Player::spec_parse(bytes, end_of(spawnpoint)), "player");
    let environment = field(Environment::spec_parse(bytes, end_of(player)), "environment");
    let z_f32_8 = field(spec_real32x8(bytes, end_of(environment)), "z_f32_8");
    let z_u8 = field(spec_u8(bytes, end_of(z_f32_8)), "z_u8");
    let boundary_vertices = field(
        spec_counted::<BoundaryVertex>(bytes, end_of(z_u8), Prefix::U32),
        "boundary_vertices",
    );
    let fires = field(spec_counted::<Fire>(bytes, end_of(boundary_vertices), Prefix::U32), "fires");
    let palettes = field(spec_counted::<Palette>(bytes, end_of(fires), Prefix::U32), "palettes");
    let registry = field(Registry::spec_parse(bytes, end_of(palettes)), "registry");
    let entities = field(spec_entity_list(bytes, end_of(registry)), "entities");
    if magic is Err {
        failed(magic)
    } else if version is Err {
        failed(version)
    } else if level is Err {
        failed(level)
    } else if z_bytes4_eq_0 is Err {
        failed(z_bytes4_eq_0)
    } else if shadow_volume is Err {
        failed(shadow_volume)
    } else if spawnpoint is Err {
        failed(spawnpoint)
    } else if player is Err {
        failed(player)
    } else if environment is Err {
        failed(environment)
    } else if z_f32_8 is Err {
        failed(z_f32_8)
    } else if z_u8 is Err {
        failed(z_u8)
    } else if boundary_vertices is Err {
        failed(boundary_vertices)
    } else if fires is Err {
        failed(fires)
    } else if palettes is Err {
        failed(palettes)
    } else if registry is Err {
        failed(registry)
    } else if entities is Err {
        failed(entities)
    } else {
        Ok(
            (
                SceneView {
                    version: value_of(version),
                    level: value_of(level),
                    z_bytes4_eq_0: value_of(z_bytes4_eq_0),
                    shadow_volume: value_of(shadow_volume),
                    spawnpoint: value_of(spawnpoint),
                    player: value_of(player),
                    environment: value_of(environment),
                    z_f32_8: value_of(z_f32_8),
                    z_u8: value_of(z_u8),
                    boundary_vertices: value_of(boundary_vertices),
                    fires: value_of(fires),
                    palettes: value_of(palettes),
                    registry: value_of(registry),
                    entities: value_of(entities),
                },
                end_of(entities),
            ),
        )
    }
}

impl Decode for Scene {
    open spec fn spec_parse(bytes: Seq<u8>, at: int) -> Result<(SceneView, int), Failure> {
        spec_scene(bytes, at)
    }

    fn parse(parser: &mut Parser) -> (got: Result<Scene, ParseError>) {
        proof {
            reveal(spec_scene);
        }
        let _magic = at_field(parser.expect(&[0x54, 0x44, 0x42, 0x49, 0x4e]), "magic")?;
        let version = at_field(parser.read_u8x3(), "version")?;
        let level = at_field(parser.read_string(Prefix::U32), "level")?;
        let z_bytes4_eq_0 = at_field(parser.read_u8x4(), "z_bytes4_eq_0")?;
        let shadow_volume = at_field(parser.read_real32x3(), "shadow_volume")?;
        let spawnpoint = at_field(Transform::parse(parser), "spawnpoint")?;
        let player = at_field(Player::parse(parser), "player")?;
        let environment = at_field(Environment::parse(parser), "environment")?;
        let z_f32_8 = at_field(parser.read_real32x8(), "z_f32_8")?;
        let z_u8 = at_field(parser.read_u8(), "z_u8")?;
        let boundary_vertices = at_field(
            parser.read_counted::<BoundaryVertex>(Prefix::U32),
            "boundary_vertices",
        )?;
        let fires = at_field(parser.read_counted::<Fire>(Prefix::U32), "fires")?;
        let palettes = at_field(parser.read_counted::<Palette>(Prefix::U32), "palettes")?;
        let registry = at_field(Registry::parse(parser), "registry")?;
        let entities = at_field(parse_entity_list(parser), "entities")?;
        Ok(
            Scene {
                version,
                level,
                z_bytes4_eq_0,
                shadow_volume,
                spawnpoint,
                player,
                environment,
                z_f32_8,
                z_u8,
                boundary_vertices,
                fires,
                palettes,
                registry,
                entities,
            },
        )
    }

    proof fn lemma_reads_ahead(a: Seq<u8>, b: Seq<u8>, at: int) {
        reveal(spec_scene);
        lemma_reads_expect(a, b, at, magic());
        let magic = field(spec_expect(a, at, magic()), "magic");
        let so_far = magic is Ok;
        if so_far {
            lemma_same_later(a, b, at, end_of(magic));
            lemma_reads_u8x3(a, b, end_of(magic));
        }
        let version = field(spec_u8x3(a, end_of(magic)), "version");
        let so_far = so_far && version is Ok;
        if so_far {
            lemma_same_later(a, b, at, end_of(version));
            lemma_reads_string(a, b, end_of(version), Prefix::U32);
        }
        let level = field(spec_string(a, end_of(version), Prefix::U32), "level");
        let so_far = so_far && level is Ok;
        if so_far {
            lemma_same_later(a, b, at, end_of(level));
            lemma_reads_u8x4(a, b, end_of(level));
        }
        let z_bytes4_eq_0 = field(spec_u8x4(a, end_of(level)), "z_bytes4_eq_0");
        let so_far = so_far && z_bytes4_eq_0 is Ok;
        if so_far {
            lemma_same_later(a, b, at, end_of(z_bytes4_eq_0));
            lemma_reads_real32x3(a, b, end_of(z_bytes4_eq_0));
        }
        let shadow_volume = field(spec_real32x3(a, end_of(z_bytes4_eq_0)), "shadow_volume");
        let so_far = so_far && shadow_volume is Ok;
        if so_far {
            lemma_same_later(a, b, at, end_of(shadow_volume));
            Transform::lemma_reads_ahead(a, b, end_of(shadow_volume));
        }
        let spawnpoint = field(Transform::spec_parse(a, end_of(shadow_volume)), "spawnpoint");
        let so_far = so_far && spawnpoint is Ok;
        if so_far {
            lemma_same_later(a, b, at, end_of(spawnpoint));
            Player::lemma_reads_ahead(a, b, end_of(spawnpoint));
        }
        let player = field(Player::spec_parse(a, end_of(spawnpoint)), "player");
        let so_far = so_far && player is Ok;
        if so_far {
            lemma_same_later(a, b, at, end_of(player));
            Environment::lemma_reads_ahead(a, b, end_of(player));
        }
        let environment = field(Environment::spec_parse(a, end_of(player)), "environment");
        let so_far = so_far && environment is Ok;
        if so_far {
            lemma_same_later(a, b, at, end_of(environment));
            lemma_reads_real32x8(a, b, end_of(environment));
        }
        let z_f32_8 = field(spec_real32x8(a, end_of(environment)), "z_f32_8");
        let so_far = so_far && z_f32_8 is Ok;
        if so_far {
            lemma_same_later(a, b, at, end_of(z_f32_8));
            lemma_reads_u8(a, b, end_of(z_f32_8));
        }
        let z_u8 = field(spec_u8(a, end_of(z_f32_8)), "z_u8");
        let so_far = so_far && z_u8 is Ok;
        if so_far {
            lemma_same_later(a, b, at, end_of(z_u8));
            lemma_reads_counted::<BoundaryVertex>(a, b, end_of(z_u8), Prefix::U32);
        }
        let boundary_vertices = field(
            spec_counted::<BoundaryVertex>(a, end_of(z_u8), Prefix::U32),
            "boundary_vertices",
        );
        let so_far = so_far && boundary_vertices is Ok;
        if so_far {
            lemma_same_later(a, b, at, end_of(boundary_vertices));
            lemma_reads_counted::<Fire>(a, b, end_of(boundary_vertices), Prefix::U32);
        }
        let fires = field(spec_counted::<Fire>(a, end_of(boundary_vertices), Prefix::U32), "fires");
        let so_far = so_far && fires is Ok;
        if so_far {
            lemma_same_later(a, b, at, end_of(fires));
            lemma_reads_counted::<Palette>(a, b, end_of(fires), Prefix::U32);
        }
        let palettes = field(spec_counted::<Palette>(a, end_of(fires), Prefix::U32), "palettes");
        let so_far = so_far && palettes is Ok;
        if so_far {
            lemma_same_later(a, b, at, end_of(palettes));
            Registry::lemma_reads_ahead(a, b, end_of(palettes));
        }
        let registry = field(Registry::spec_parse(a, end_of(palettes)), "registry");
        let so_far = so_far && registry is Ok;
        if so_far {
            lemma_same_later(a, b, at, end_of(registry));
            lemma_reads_entity_list(a, b, end_of(registry));
        }
    }
}

/// An entity and everything below it, the entity first and then each of
/// its children with everything below it.
pub open spec fn preorder(entity: EntityView) -> Seq<EntityView>
    decreases entity, 0nat,
{
    seq![entity] + preorder_all(entity.children, entity.children.len())
}

/// The first `n` of the given entities, each with everything below it.
pub open spec fn preorder_all(entities: Seq<EntityView>, n: nat) -> Seq<EntityView>
    decreases entities, n + 1,
{
    if n == 0 || n > entities.len() {
        Seq::empty()
    } else {
        preorder_all(entities, (n - 1) as nat) + preorder(entities[n - 1])
    }
}

/// Adds the entity and everything below it to `out`.
fn collect<'a>(entity: &'a Entity, out: &mut Vec<&'a Entity>)
    ensures
        views(final(out)@) == views(old(out)@) + preorder(entity@),
    decreases entity,
{
    let ghost before = views(out@);
    out.push(entity);
    assert(views(out@) =~= before + seq![entity@]);
    let mut i: usize = 0;
    while i < entity.children.len()
        invariant
            i <= entity.children@.len(),
            views(out@) == before + (seq![entity@] + preorder_all(entity@.children, i as nat)),
        decreases entity.children@.len() - i,
    {
        let ghost so_far = views(out@);
        assert(entity@.children[i as int] == entity.children@[i as int]@);
        collect(&entity.children[i], out);
        i = i + 1;
        assert(views(out@) =~= before + (seq![entity@] + preorder_all(
            entity@.children,
            i as nat,
        )));
    }
}

impl Entity {
    /// The entity and everything below it, the entity first and then each
    /// of its children with everything below it.
    pub fn self_and_all_children(&self) -> (all: Vec<&Entity>)
        ensures
            views(all@) == preorder(self@),
    {
        let mut all: Vec<&Entity> = Vec::new();
        assert(views(all@) =~= Seq::<EntityView>::empty());
        collect(self, &mut all);
        assert(Seq::<EntityView>::empty() + preorder(self@) =~= preorder(self@));
        all
    }
}

impl Scene {
    /// Whether the file was written in the version of the format that the
    /// library was written for.
    pub fn has_expected_version(&self) -> (expected: bool)
        ensures
            expected == (self.version@ == expected_version()),
    {
        let expected = self.version[0] == 0 && self.version[1] == 7 && self.version[2] == 1;
        assert(expected == (self.version@ =~= expected_version()));
        expected
    }

    /// Every entity of the scene: each root with everything below it.
    pub fn iter_entities(&self) -> (all: Vec<&Entity>)
        ensures
            views(all@) == preorder_all(self@.entities, self@.entities.len()),
    {
        let mut all: Vec<&Entity> = Vec::new();
        assert(views(all@) =~= Seq::<EntityView>::empty());
        let mut i: usize = 0;
        while i < self.entities.len()
            invariant
                i <= self.entities@.len(),
                views(all@) == preorder_all(self@.entities, i as nat),
            decreases self.entities@.len() - i,
        {
            assert(self@.entities[i as int] == self.entities@[i as int]@);
            collect(&self.entities[i], &mut all);
            i = i + 1;
        }
        all
    }
}

/// What reading a whole scene file gives: the scene, or the failure.
/// Bytes behind the scene are left alone.
pub open spec fn decoded(bytes: Seq<u8>) -> Result<SceneView, Failure> {
    match Scene::spec_parse(bytes, 0) {
        Ok((scene, _)) => Ok(scene),
        Err(failure) => Err(failure),
    }
}

/// Bytes that do not begin as a scene file begins are no scene.
pub proof fn lemma_magic_is_needed(bytes: Seq<u8>)
    requires
        !has_magic(bytes),
    ensures
        decoded(bytes) is Err,
        bytes.len() >= 5 ==> decoded(bytes) == Err::<SceneView, Failure>(
            Failure {
                kind: ParseErrorKind::Mismatch,
                offset: 0,
                path: seq![PathStep::Field("magic")],
            },
        ),
{
    reveal(spec_scene);
    if bytes.len() >= 5 {
        let failure = field(spec_expect(bytes, 0, magic()), "magic")->Err_0;
        assert(failure.path =~= seq![PathStep::Field("magic")]);
    }
}

/// The version of a file decides nothing: two files that differ in the
/// three bytes of the version alone hold the same scene but for its
/// version, or fail in the same way.
pub proof fn lemma_version_is_advisory(a: Seq<u8>, b: Seq<u8>)
    requires
        a.len() == b.len(),
        forall|k: int| 0 <= k < a.len() && !(5 <= k < 8) ==> a[k] == b[k],
    ensures
        match decoded(a) {
            Ok(scene) => decoded(b) == Ok::<SceneView, Failure>(
                SceneView { version: [b[5], b[6], b[7]], ..scene },
            ),
            Err(failure) => decoded(b) == Err::<SceneView, Failure>(failure),
        },
{
    reveal(spec_scene);
    if a.len() >= 5 {
        assert(a.subrange(0, 5) =~= b.subrange(0, 5));
    }
    if a.len() >= 8 {
        assert(same_from(a, b, 8)) by {
            reveal(same_from);
        }
        assert(value_of(spec_u8x3(b, 5)) =~= [b[5], b[6], b[7]]);
        let magic = field(spec_expect(a, 0, magic()), "magic");
        let so_far = magic is Ok;
        let version = field(spec_u8x3(a, end_of(magic)), "version");
        let so_far = so_far && version is Ok;
        if so_far {
            lemma_same_later(a, b, 8, end_of(version));
            lemma_reads_string(a, b, end_of(version), Prefix::U32);
        }
        let level = field(spec_string(a, end_of(version), Prefix::U32), "level");
        let so_far = so_far && level is Ok;
        if so_far {
            lemma_same_later(a, b, 8, end_of(level));
            lemma_reads_u8x4(a, b, end_of(level));
        }
        let z_bytes4_eq_0 = field(spec_u8x4(a, end_of(level)), "z_bytes4_eq_0");
        let so_far = so_far && z_bytes4_eq_0 is Ok;
        if so_far {
            lemma_same_later(a, b, 8, end_of(z_bytes4_eq_0));
            lemma_reads_real32x3(a, b, end_of(z_bytes4_eq_0));
        }
        let shadow_volume = field(spec_real32x3(a, end_of(z_bytes4_eq_0)), "shadow_volume");
        let so_far = so_far && shadow_volume is Ok;
        if so_far {
            lemma_same_later(a, b, 8, end_of(shadow_volume));
            Transform::lemma_reads_ahead(a, b, end_of(shadow_volume));
        }
        let spawnpoint = field(Transform::spec_parse(a, end_of(shadow_volume)), "spawnpoint");
        let so_far = so_far && spawnpoint is Ok;
        if so_far {
            lemma_same_later(a, b, 8, end_of(spawnpoint));
            Player::lemma_reads_ahead(a, b, end_of(spawnpoint));
        }
        let player = field(Player::spec_parse(a, end_of(spawnpoint)), "player");
        let so_far = so_far && player is Ok;
        if so_far {
            lemma_same_later(a, b, 8, end_of(player));
            Environment::lemma_reads_ahead(a, b, end_of(player));
        }
        let environment = field(Environment::spec_parse(a, end_of(player)), "environment");
        let so_far = so_far && environment is Ok;
        if so_far {
            lemma_same_later(a, b, 8, end_of(environment));
            lemma_reads_real32x8(a, b, end_of(environment));
        }
        let z_f32_8 = field(spec_real32x8(a, end_of(environment)), "z_f32_8");
        let so_far = so_far && z_f32_8 is Ok;
        if so_far {
            lemma_same_later(a, b, 8, end_of(z_f32_8));
            lemma_reads_u8(a, b, end_of(z_f32_8));
        }
        let z_u8 = field(spec_u8(a, end_of(z_f32_8)), "z_u8");
        let so_far = so_far && z_u8 is Ok;
        if so_far {
            lemma_same_later(a, b, 8, end_of(z_u8));
            lemma_reads_counted::<BoundaryVertex>(a, b, end_of(z_u8), Prefix::U32);
        }
        let boundary_vertices = field(
            spec_counted::<BoundaryVertex>(a, end_of(z_u8), Prefix::U32),
            "boundary_vertices",
        );
        let so_far = so_far && boundary_vertices is Ok;
        if so_far {
            lemma_same_later(a, b, 8, end_of(boundary_vertices));
            lemma_reads_counted::<Fire>(a, b, end_of(boundary_vertices), Prefix::U32);
        }
        let fires = field(spec_counted::<Fire>(a, end_of(boundary_vertices), Prefix::U32), "fires");
        let so_far = so_far && fires is Ok;
        if so_far {
            lemma_same_later(a, b, 8, end_of(fires));
            lemma_reads_counted::<Palette>(a, b, end_of(fires), Prefix::U32);
        }
        let palettes = field(spec_counted::<Palette>(a, end_of(fires), Prefix::U32), "palettes");
        let so_far = so_far && palettes is Ok;
        if so_far {
            lemma_same_later(a, b, 8, end_of(palettes));
            Registry::lemma_reads_ahead(a, b, end_of(palettes));
        }
        let registry = field(Registry::spec_parse(a, end_of(palettes)), "registry");
        let so_far = so_far && registry is Ok;
        if so_far {
            lemma_same_later(a, b, 8, end_of(registry));
            lemma_reads_entity_list(a, b, end_of(registry));
        }
    }
}

/// Reads a scene from the bytes of a scene file that is not compressed.
pub fn parse_uncompressed(bytes: &[u8]) -> (scene: Result<Scene, ParseError>)
    ensures
        seen(scene) == decoded(bytes@),
        scene is Ok ==> has_magic(bytes@),
{
    let mut parser = Parser::new(bytes);
    proof {
        if !has_magic(bytes@) {
            lemma_magic_is_needed(bytes@);
        }
    }
    Scene::parse(&mut parser)
}

} // verus!
