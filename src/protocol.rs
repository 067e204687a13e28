//! The wire data model: envelopes, commands, events and the records of the
//! simulated world.
//!
//! Positions, velocities, angles and physical quantities are fixed-point
//! integers: `UNIT` steps make one metre (or one second, for durations).
use vstd::prelude::*;

verus! {

/// Fixed-point steps per metre, per metre per second and per second.
pub const UNIT: i64 = 60_000;

/// Version of the wire schema, `major.minor`.
#[derive(Debug, Clone, Copy, PartialEq, Eq, Structural)]
pub struct SchemaVersion {
    pub major: u16,
    pub minor: u16,
}

impl SchemaVersion {
    /// The schema that this library produces.
    pub fn v0_1() -> (r: SchemaVersion)
        ensures
            r.major == 0 && r.minor == 1,
    {
        SchemaVersion { major: 0, minor: 1 }
    }

    /// A consumer supporting `self` accepts a payload of schema `other`
    /// exactly when the major versions agree.
    pub fn accepts(&self, other: &SchemaVersion) -> (r: bool)
        ensures
            r == (self.major == other.major),
    {
        self.major == other.major
    }
}

/// Whether an envelope carries a command or an event.
#[derive(Debug, Clone, Copy, PartialEq, Eq, Structural)]
pub enum Kind {
    Cmd,
    Evt,
}

/// `uuid::Uuid`, the correlation id of an envelope: opaque here, carried
/// through unread.
#[verifier::external_type_specification]
#[verifier::external_body]
pub struct ExUuid(uuid::Uuid);

/// The only value placed on the wire: a typed body stamped with its kind,
/// schema, tick and an optional correlation id.
#[derive(Debug, Clone)]
pub struct Envelope<T> {
    pub kind: Kind,
    pub schema: SchemaVersion,
    pub t: u64,
    pub id: Option<uuid::Uuid>,
    pub body: T,
}

/// A client command.
#[derive(Debug, Clone)]
pub enum Cmd {
    Ping { nonce: String },
    Move { entity_id: String, axis: Vec2, thrust: i64 },
    Fire { entity_id: String, weapon: String, aim: Vec2 },
    Mine { entity_id: String, target: String },
    Craft { entity_id: String, recipe_id: String, inputs: Vec<(String, i32)> },
    UseItem { entity_id: String, slot: u8 },
}

/// A server event.
#[derive(Debug, Clone)]
pub enum Evt {
    Pong { nonce: String, rtt_ms: u32 },
    Snapshot { full: bool, state: State },
    Delta { adds: Vec<Entity>, updates: Vec<Entity>, removes: Vec<String> },
    Mined { miner_id: String, node_id: String, yields: Vec<(String, i32)> },
    CraftResult { entity_id: String, ok: bool, outputs: Vec<(String, i32)> },
    Desync { client_hash: String, server_hash: String, at_tick: u64 },
}

/// A fixed-point two-dimensional vector.
#[derive(Debug, Clone, Copy, PartialEq, Eq, Structural)]
pub struct Vec2 {
    pub x: i64,
    pub y: i64,
}

/// Position, velocity, orientation and angular velocity.
#[derive(Debug, Clone, Copy, PartialEq, Eq, Structural)]
pub struct Pose {
    pub p: Vec2,
    pub v: Vec2,
    pub theta: i64,
    pub omega: i64,
}

/// Mass and radius of a body.
#[derive(Debug, Clone, Copy, PartialEq, Eq, Structural)]
pub struct Physics {
    pub mass: i64,
    pub radius: i64,
}

/// Ordered `(item id, count)` slots; order and duplicates are significant.
#[derive(Debug, Clone)]
pub struct Inventory {
    pub slots: Vec<(String, i32)>,
}

/// A simulated body, identified by a unique string id.
#[derive(Debug, Clone)]
pub struct Entity {
    pub id: String,
    pub archetype: String,
    pub pose: Pose,
    pub physics: Physics,
    pub inventory: Inventory,
    pub owner: Option<String>,
}

/// A fired projectile with its remaining time to live in ticks.
#[derive(Debug, Clone)]
pub struct Projectile {
    pub id: String,
    pub pose: Pose,
    pub ttl: u16,
    pub owner: String,
    pub weapon: String,
}

/// The world's seed and its time, in ticks.
#[derive(Debug, Clone)]
pub struct World {
    pub seed: String,
    pub time: u64,
}

/// The root value that is hashed, snapshotted, diffed and persisted.
#[derive(Debug, Clone)]
pub struct State {
    pub world: World,
    pub entities: Vec<Entity>,
    pub projectiles: Vec<Projectile>,
}

pub ghost struct EntityView {
    pub id: Seq<char>,
    pub archetype: Seq<char>,
    pub pose: Pose,
    pub physics: Physics,
    pub inventory: Seq<(Seq<char>, i32)>,
    pub owner: Option<Seq<char>>,
}

pub ghost struct ProjectileView {
    pub id: Seq<char>,
    pub pose: Pose,
    pub ttl: u16,
    pub owner: Seq<char>,
    pub weapon: Seq<char>,
}

pub ghost struct WorldView {
    pub seed: Seq<char>,
    pub time: u64,
}

pub ghost struct StateView {
    pub world: WorldView,
    pub entities: Seq<EntityView>,
    pub projectiles: Seq<ProjectileView>,
}

pub open spec fn slots_view(s: Seq<(String, i32)>) -> Seq<(Seq<char>, i32)> {
    s.map_values(|x: (String, i32)| (x.0@, x.1))
}

pub open spec fn opt_str_view(o: Option<String>) -> Option<Seq<char>> {
    match o {
        Some(s) => Some(s@),
        None => None,
    }
}

impl View for Inventory {
    type V = Seq<(Seq<char>, i32)>;

    open spec fn view(&self) -> Seq<(Seq<char>, i32)> {
        slots_view(self.slots@)
    }
}

impl View for Entity {
    type V = EntityView;

    open spec fn view(&self) -> EntityView {
        EntityView {
            id: self.id@,
            archetype: self.archetype@,
            pose: self.pose,
            physics: self.physics,
            inventory: self.inventory@,
            owner: opt_str_view(self.owner),
        }
    }
}

impl View for Projectile {
    type V = ProjectileView;

    open spec fn view(&self) -> ProjectileView {
        ProjectileView {
            id: self.id@,
            pose: self.pose,
            ttl: self.ttl,
            owner: self.owner@,
            weapon: self.weapon@,
        }
    }
}

impl View for World {
    type V = WorldView;

    open spec fn view(&self) -> WorldView {
        WorldView { seed: self.seed@, time: self.time }
    }
}

pub open spec fn entities_view(v: Seq<Entity>) -> Seq<EntityView> {
    v.map_values(|e: Entity| e@)
}

pub open spec fn projectiles_view(v: Seq<Projectile>) -> Seq<ProjectileView> {
    v.map_values(|p: Projectile| p@)
}

impl View for State {
    type V = StateView;

    open spec fn view(&self) -> StateView {
        StateView {
            world: self.world@,
            entities: entities_view(self.entities@),
            projectiles: projectiles_view(self.projectiles@),
        }
    }
}

fn slots_eq(a: &Vec<(String, i32)>, b: &Vec<(String, i32)>) -> (r: bool)
    ensures
        r == (slots_view(a@) == slots_view(b@)),
{
    if a.len() != b.len() {
        return false;
    }
    let mut i: usize = 0;
    while i < a.len()
        invariant
            a.len() == b.len(),
            0 <= i <= a.len(),
            forall|k: int| 0 <= k < i ==> slots_view(a@)[k] == slots_view(b@)[k],
        decreases a.len() - i,
    {
        if a[i].0 != b[i].0 || a[i].1 != b[i].1 {
            assert(slots_view(a@)[i as int] != slots_view(b@)[i as int]);
            return false;
        }
        i += 1;
    }
    assert(slots_view(a@) =~= slots_view(b@));
    true
}

fn opt_str_eq(a: &Option<String>, b: &Option<String>) -> (r: bool)
    ensures
        r == (opt_str_view(*a) == opt_str_view(*b)),
{
    match a {
        Some(x) => match b {
            Some(y) => *x == *y,
            None => false,
        },
        None => b.is_none(),
    }
}

impl PartialEq for Entity {
    /// Full structural equality: every field, inventory order included.
    fn eq(&self, other: &Entity) -> (r: bool)
        ensures
            r == (self@ == other@),
    {
        self.id == other.id && self.archetype == other.archetype && self.pose == other.pose
            && self.physics == other.physics && slots_eq(&self.inventory.slots, &other.inventory.slots)
            && opt_str_eq(&self.owner, &other.owner)
    }
}

impl vstd::std_specs::cmp::PartialEqSpecImpl for Entity {
    open spec fn obeys_eq_spec() -> bool {
        true
    }

    open spec fn eq_spec(&self, other: &Entity) -> bool {
        self@ == other@
    }
}

fn copy_slots(s: &Vec<(String, i32)>) -> (r: Vec<(String, i32)>)
    ensures
        slots_view(r@) == slots_view(s@),
{
    let mut r: Vec<(String, i32)> = Vec::new();
    let mut i: usize = 0;
    while i < s.len()
        invariant
            0 <= i <= s@.len(),
            r@.len() == i,
            forall|k: int| 0 <= k < i ==> (#[trigger] r@[k]).0@ == s@[k].0@ && r@[k].1 == s@[k].1,
        decreases s.len() - i,
    {
        r.push((s[i].0.clone(), s[i].1));
        i += 1;
    }
    assert(slots_view(r@) =~= slots_view(s@));
    r
}

fn copy_opt_str(o: &Option<String>) -> (r: Option<String>)
    ensures
        opt_str_view(r) == opt_str_view(*o),
{
    match o {
        Some(x) => Some(x.clone()),
        None => None,
    }
}

impl Entity {
    /// A copy of this entity, field by field.
    pub fn copied(&self) -> (r: Entity)
        ensures
            r@ == self@,
    {
        Entity {
            id: self.id.clone(),
            archetype: self.archetype.clone(),
            pose: self.pose,
            physics: self.physics,
            inventory: Inventory { slots: copy_slots(&self.inventory.slots) },
            owner: copy_opt_str(&self.owner),
        }
    }
}

impl Projectile {
    /// A copy of this projectile, field by field.
    pub fn copied(&self) -> (r: Projectile)
        ensures
            r@ == self@,
    {
        Projectile {
            id: self.id.clone(),
            pose: self.pose,
            ttl: self.ttl,
            owner: self.owner.clone(),
            weapon: self.weapon.clone(),
        }
    }
}

impl State {
    /// An empty state: no seed, time zero, no entities or projectiles.
    pub fn empty() -> (r: State)
        ensures
            r@.world.seed.len() == 0,
            r@.world.time == 0,
            r@.entities.len() == 0,
            r@.projectiles.len() == 0,
    {
        State { world: World { seed: String::new(), time: 0 }, entities: Vec::new(), projectiles: Vec::new() }
    }

    /// A copy of this state, field by field.
    pub fn copied(&self) -> (r: State)
        ensures
            r@ == self@,
    {
        let mut es: Vec<Entity> = Vec::new();
        let mut i: usize = 0;
        while i < self.entities.len()
            invariant
                0 <= i <= self.entities@.len(),
                es@.len() == i,
                forall|k: int| 0 <= k < i ==> (#[trigger] es@[k])@ == self.entities@[k]@,
            decreases self.entities.len() - i,
        {
            es.push(self.entities[i].copied());
            i += 1;
        }
        assert(entities_view(es@) =~= entities_view(self.entities@));
        let mut ps: Vec<Projectile> = Vec::new();
        let mut i: usize = 0;
        while i < self.projectiles.len()
            invariant
                0 <= i <= self.projectiles@.len(),
                ps@.len() == i,
                forall|k: int| 0 <= k < i ==> (#[trigger] ps@[k])@ == self.projectiles@[k]@,
            decreases self.projectiles.len() - i,
        {
            ps.push(self.projectiles[i].copied());
            i += 1;
        }
        assert(projectiles_view(ps@) =~= projectiles_view(self.projectiles@));
        State {
            world: World { seed: self.world.seed.clone(), time: self.world.time },
            entities: es,
            projectiles: ps,
        }
    }
}

impl Default for State {
    fn default() -> (r: State)
        ensures
            r@.world.seed.len() == 0,
            r@.world.time == 0,
            r@.entities.len() == 0,
            r@.projectiles.len() == 0,
    {
        State::empty()
    }
}

impl Cmd {
    /// A copy of this command; a `Fire` keeps its shooter, weapon and aim.
    pub(crate) fn copied(&self) -> (r: Cmd)
        ensures
            (r is Fire) == (*self is Fire),
            r is Fire ==> r->Fire_entity_id@ == self->Fire_entity_id@ && r->Fire_weapon@
                == self->Fire_weapon@ && r->Fire_aim == self->Fire_aim,
    {
        match self {
            Cmd::Ping { nonce } => Cmd::Ping { nonce: nonce.clone() },
            Cmd::Move { entity_id, axis, thrust } => Cmd::Move {
                entity_id: entity_id.clone(),
                axis: *axis,
                thrust: *thrust,
            },
            Cmd::Fire { entity_id, weapon, aim } => Cmd::Fire {
                entity_id: entity_id.clone(),
                weapon: weapon.clone(),
                aim: *aim,
            },
            Cmd::Mine { entity_id, target } => Cmd::Mine {
                entity_id: entity_id.clone(),
                target: target.clone(),
            },
            Cmd::Craft { entity_id, recipe_id, inputs } => Cmd::Craft {
                entity_id: entity_id.clone(),
                recipe_id: recipe_id.clone(),
                inputs: copy_slots(inputs),
            },
            Cmd::UseItem { entity_id, slot } => Cmd::UseItem { entity_id: entity_id.clone(), slot: *slot },
        }
    }
}

} // verus!
