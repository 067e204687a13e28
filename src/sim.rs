//! The simulation engine: owns the world state, applies commands, advances
//! fixed ticks and keeps every projectile paired with its mirror entity.
use vstd::prelude::*;
use vstd::string::StringExecFns;
use crate::ids::{
    lemma_projectile_id_counter, mirror_id, mirror_id_string,
    projectile_archetype, projectile_archetype_string, projectile_id, projectile_id_string,
};
use crate::physics::{advance_vec, launch_velocity, launch_velocity_exec, Integrator, DT};
use crate::protocol::{
    entities_view, projectiles_view, Cmd, Entity, EntityView, Evt, Inventory, Physics, Pose,
    Projectile, ProjectileView, State, StateView, Vec2, World, WorldView,
};

verus! {

/// Ticks a projectile lives.
pub const PROJECTILE_TTL: u16 = 60;

/// Mass of a mirror entity: one kilogram.
pub const MIRROR_MASS: i64 = 60_000;

/// Radius of a mirror entity: a fifth of a metre.
pub const MIRROR_RADIUS: i64 = 12_000;

/// What the engine is: its state, its tick counter and how many
/// projectiles it has fired.
pub ghost struct SimView {
    pub state: StateView,
    pub tick: u64,
    pub proj_counter: u64,
}

/// The engine as freshly created with `seed`.
pub open spec fn initial(seed: Seq<char>) -> SimView {
    SimView {
        state: StateView {
            world: WorldView { seed, time: 0 },
            entities: Seq::empty(),
            projectiles: Seq::empty(),
        },
        tick: 0,
        proj_counter: 0,
    }
}

/// Every projectile `i` is mirrored by entity `i`, whose id derives from
/// the projectile's.
pub open spec fn paired(s: StateView) -> bool {
    &&& s.entities.len() == s.projectiles.len()
    &&& forall|i: int|
        0 <= i < s.projectiles.len() ==> #[trigger] s.entities[i].id == mirror_id(
            s.projectiles[i].id,
        )
}

pub open spec fn distinct_ids(ps: Seq<ProjectileView>) -> bool {
    forall|i: int, j: int|
        0 <= i < ps.len() && 0 <= j < ps.len() && i != j ==> #[trigger] ps[i].id != #[trigger] ps[j].id
}

/// The invariant of the engine: projectiles and mirrors are paired, projectile
/// ids are unique, and the world's time is the tick counter.
pub open spec fn valid(m: SimView) -> bool {
    &&& paired(m.state)
    &&& distinct_ids(m.state.projectiles)
    &&& m.state.world.time == m.tick
}

pub open spec fn integrate_pose(p: Pose) -> Pose {
    Pose { p: advance_vec(p.p, p.v, DT), v: p.v, theta: p.theta, omega: p.omega }
}

pub open spec fn step_entity(e: EntityView) -> EntityView {
    EntityView {
        id: e.id,
        archetype: e.archetype,
        pose: integrate_pose(e.pose),
        physics: e.physics,
        inventory: e.inventory,
        owner: e.owner,
    }
}

pub open spec fn step_projectile(p: ProjectileView) -> ProjectileView {
    ProjectileView {
        id: p.id,
        pose: integrate_pose(p.pose),
        ttl: if p.ttl > 0 {
            (p.ttl - 1) as u16
        } else {
            0
        },
        owner: p.owner,
        weapon: p.weapon,
    }
}

pub open spec fn any_expired(ps: Seq<ProjectileView>) -> bool {
    exists|i: int| 0 <= i < ps.len() && #[trigger] ps[i].ttl == 0
}

/// The items of `xs` whose paired projectile in `ps` is still alive, in order.
pub open spec fn keep_live<A>(xs: Seq<A>, ps: Seq<ProjectileView>) -> Seq<A>
    decreases ps.len(),
{
    if ps.len() == 0 || xs.len() == 0 {
        Seq::empty()
    } else {
        let rest = keep_live(xs.drop_last(), ps.drop_last());
        if ps.last().ttl > 0 {
            rest.push(xs.last())
        } else {
            rest
        }
    }
}

/// The positions in `ps` of the projectiles that are still alive.
pub open spec fn live_indices(ps: Seq<ProjectileView>) -> Seq<int> {
    keep_live(Seq::new(ps.len(), |i: int| i), ps)
}

/// The `j`-th kept item is the item at the `j`-th live position; the live
/// positions are increasing and are exactly those with time left.
pub proof fn lemma_keep_live<A>(xs: Seq<A>, ps: Seq<ProjectileView>)
    requires
        xs.len() == ps.len(),
    ensures
        keep_live(xs, ps).len() == live_indices(ps).len(),
        forall|j: int|
            0 <= j < live_indices(ps).len() ==> {
                &&& 0 <= #[trigger] live_indices(ps)[j] < ps.len()
                &&& keep_live(xs, ps)[j] == xs[live_indices(ps)[j]]
                &&& ps[live_indices(ps)[j]].ttl > 0
            },
        forall|j: int, k: int|
            0 <= j < k < live_indices(ps).len() ==> #[trigger] live_indices(ps)[j]
                < #[trigger] live_indices(ps)[k],
        forall|i: int|
            0 <= i < ps.len() && #[trigger] ps[i].ttl > 0 ==> exists|j: int|
                0 <= j < live_indices(ps).len() && live_indices(ps)[j] == i,
    decreases ps.len(),
{
    let ids = Seq::new(ps.len(), |i: int| i);
    if ps.len() > 0 {
        let ps1 = ps.drop_last();
        lemma_keep_live(xs.drop_last(), ps1);
        assert(ids.drop_last() =~= Seq::new(ps1.len(), |i: int| i));
        let li1 = live_indices(ps1);
        assert forall|i: int| 0 <= i < ps.len() && #[trigger] ps[i].ttl > 0 implies exists|j: int|
            0 <= j < live_indices(ps).len() && live_indices(ps)[j] == i by {
            if i < ps.len() - 1 {
                assert(ps1[i].ttl > 0);
                let j = choose|j: int| 0 <= j < li1.len() && li1[j] == i;
                assert(live_indices(ps)[j] == i);
            } else {
                assert(live_indices(ps)[li1.len() as int] == i);
            }
        }
    }
}

/// The projectiles whose time to live has not run out, in order.
pub open spec fn live_projectiles(ps: Seq<ProjectileView>) -> Seq<ProjectileView> {
    keep_live(ps, ps)
}

/// The entities whose paired projectile is still alive, in order.
pub open spec fn live_entities(es: Seq<EntityView>, ps: Seq<ProjectileView>) -> Seq<EntityView> {
    keep_live(es, ps)
}

/// Each mirror entity takes the pose of its projectile.
pub open spec fn synced_entities(es: Seq<EntityView>, ps: Seq<ProjectileView>) -> Seq<EntityView> {
    Seq::new(
        es.len(),
        |i: int|
            EntityView {
                id: es[i].id,
                archetype: es[i].archetype,
                pose: ps[i].pose,
                physics: es[i].physics,
                inventory: es[i].inventory,
                owner: es[i].owner,
            },
    )
}

/// One fixed tick: integrate everything, count down projectile lives, drop
/// expired projectiles with their mirrors or else sync mirrors to their
/// projectiles, and advance the clock.
pub open spec fn step_model(m: SimView) -> SimView {
    let es = m.state.entities.map_values(|e: EntityView| step_entity(e));
    let ps = m.state.projectiles.map_values(|p: ProjectileView| step_projectile(p));
    SimView {
        state: StateView {
            world: WorldView { seed: m.state.world.seed, time: (m.tick + 1) as u64 },
            entities: if any_expired(ps) {
                live_entities(es, ps)
            } else {
                synced_entities(es, ps)
            },
            projectiles: if any_expired(ps) {
                live_projectiles(ps)
            } else {
                ps
            },
        },
        tick: (m.tick + 1) as u64,
        proj_counter: m.proj_counter,
    }
}

pub open spec fn launch_pose(aim: Vec2) -> Pose {
    Pose { p: Vec2 { x: 0, y: 0 }, v: launch_velocity(aim), theta: 0, omega: 0 }
}

/// Firing appends a projectile and its mirror entity.
pub open spec fn fire_model(m: SimView, entity_id: Seq<char>, weapon: Seq<char>, aim: Vec2) -> SimView {
    let pid = projectile_id(m.tick as nat, m.proj_counter as nat);
    SimView {
        state: StateView {
            world: m.state.world,
            entities: m.state.entities.push(
                EntityView {
                    id: mirror_id(pid),
                    archetype: projectile_archetype(weapon),
                    pose: launch_pose(aim),
                    physics: Physics { mass: MIRROR_MASS, radius: MIRROR_RADIUS },
                    inventory: Seq::empty(),
                    owner: None,
                },
            ),
            projectiles: m.state.projectiles.push(
                ProjectileView {
                    id: pid,
                    pose: launch_pose(aim),
                    ttl: PROJECTILE_TTL,
                    owner: entity_id,
                    weapon,
                },
            ),
        },
        tick: m.tick,
        proj_counter: (m.proj_counter + 1) as u64,
    }
}

/// What the engine reads of a command: the shooter, weapon and aim of a
/// `Fire`; nothing of any other command.
pub open spec fn fire_args(cmd: Cmd) -> Option<(Seq<char>, Seq<char>, Vec2)> {
    match cmd {
        Cmd::Fire { entity_id, weapon, aim } => Some((entity_id@, weapon@, aim)),
        _ => None,
    }
}

/// The engine after a command with arguments `f`: only `Fire` changes it.
pub open spec fn apply_args(m: SimView, f: Option<(Seq<char>, Seq<char>, Vec2)>) -> SimView {
    match f {
        Some(a) => fire_model(m, a.0, a.1, a.2),
        None => m,
    }
}

/// The engine after applying `cmd`.
pub open spec fn apply_model(m: SimView, cmd: Cmd) -> SimView {
    apply_args(m, fire_args(cmd))
}

/// Whether `apply` can take `cmd`: a `Fire` needs a fresh projectile number.
pub open spec fn can_apply(m: SimView, cmd: Cmd) -> bool {
    cmd is Fire ==> m.proj_counter < u64::MAX
}

/// The resource that mining yields.
pub open spec fn feore() -> Seq<char> {
    seq!['F', 'e', 'O', 'r', 'e']
}

/// The events that `apply` returns for `cmd`.
pub open spec fn events_of(cmd: Cmd, r: Seq<Evt>) -> bool {
    match cmd {
        Cmd::Ping { nonce } => r.len() == 1 && r[0] == (Evt::Pong { nonce, rtt_ms: 0 }),
        Cmd::Mine { entity_id, target } => {
            &&& r.len() == 1
            &&& r[0] is Mined
            &&& r[0]->Mined_miner_id == entity_id
            &&& r[0]->Mined_node_id == target
            &&& r[0]->Mined_yields@.len() == 1
            &&& r[0]->Mined_yields@[0].0@ == feore()
            &&& r[0]->Mined_yields@[0].1 == 1
        },
        _ => r.len() == 0,
    }
}

/// The engine: the single owner of the world state.
pub struct Sim {
    integ: Integrator,
    state: State,
    tick: u64,
    proj_counter: u64,
    /// For each projectile, the tick and counter its id was made from.
    origins: Ghost<Seq<(nat, nat)>>,
}

impl View for Sim {
    type V = SimView;

    closed spec fn view(&self) -> SimView {
        SimView { state: self.state@, tick: self.tick, proj_counter: self.proj_counter }
    }
}

impl Sim {
    /// Well-formed: `valid`, and each projectile id was made from a counter
    /// below the current one.
    pub closed spec fn wf(&self) -> bool {
        &&& valid(self@)
        &&& self.origins@.len() == self.state.projectiles.len()
        &&& forall|i: int|
            0 <= i < self.origins@.len() ==> {
                &&& #[trigger] self.state.projectiles@[i].id@ == projectile_id(
                    self.origins@[i].0,
                    self.origins@[i].1,
                )
                &&& self.origins@[i].1 < self.proj_counter
            }
    }

    /// A well-formed engine is `valid`.
    pub proof fn lemma_wf_valid(&self)
        requires
            self.wf(),
        ensures
            valid(self@),
    {
    }

    /// A fresh engine at tick zero with an empty world of the given seed.
    pub fn new(seed: &str) -> (r: Sim)
        ensures
            r.wf(),
            r@ == initial(seed@),
    {
        let state = State {
            world: World { seed: seed.to_string(), time: 0 },
            entities: Vec::new(),
            projectiles: Vec::new(),
        };
        let r = Sim { integ: Integrator, state, tick: 0, proj_counter: 0, origins: Ghost(Seq::empty()) };
        assert(r@.state.entities =~= Seq::<EntityView>::empty());
        assert(r@.state.projectiles =~= Seq::<ProjectileView>::empty());
        r
    }

    /// The number of ticks advanced so far.
    pub fn tick(&self) -> (r: u64)
        ensures
            r == self@.tick,
    {
        self.tick
    }

    /// How many projectiles the engine has fired.
    pub fn fired(&self) -> (r: u64)
        ensures
            r == self@.proj_counter,
    {
        self.proj_counter
    }

    /// The current world state, read-only.
    pub fn state(&self) -> (r: &State)
        ensures
            r@ == self@.state,
    {
        &self.state
    }

    /// Applies one command; returns its immediate events.
    pub fn apply(&mut self, cmd: Cmd) -> (r: Vec<Evt>)
        requires
            old(self).wf(),
            can_apply(old(self)@, cmd),
        ensures
            final(self).wf(),
            final(self)@ == apply_model(old(self)@, cmd),
            events_of(cmd, r@),
    {
        match cmd {
            Cmd::Ping { nonce } => {
                let mut r = Vec::new();
                r.push(Evt::Pong { nonce, rtt_ms: 0 });
                r
            },
            Cmd::Mine { entity_id, target } => {
                let mut yields = Vec::new();
                let mut ore = String::new();
                proof { reveal_strlit("FeOre"); }
                ore.append("FeOre");
                assert(ore@ =~= feore());
                yields.push((ore, 1i32));
                let mut r = Vec::new();
                r.push(Evt::Mined { miner_id: entity_id, node_id: target, yields });
                assert(r@[0]->Mined_yields@[0].0@ == feore());
                r
            },
            Cmd::Fire { entity_id, weapon, aim } => {
                self.fire(entity_id, weapon, aim);
                Vec::new()
            },
            _ => Vec::new(),
        }
    }

    fn fire(&mut self, entity_id: String, weapon: String, aim: Vec2)
        requires
            old(self).wf(),
            old(self)@.proj_counter < u64::MAX,
        ensures
            final(self).wf(),
            final(self)@ == fire_model(old(self)@, entity_id@, weapon@, aim),
    {
        let ghost m = self@;
        let vel = launch_velocity_exec(aim);
        let pid = projectile_id_string(self.tick, self.proj_counter);
        let eid = mirror_id_string(&pid);
        let arch = projectile_archetype_string(&weapon);
        let pose = Pose { p: Vec2 { x: 0, y: 0 }, v: vel, theta: 0, omega: 0 };
        proof {
            let ps = self.state.projectiles@;
            assert forall|i: int| 0 <= i < ps.len() implies ps[i].id@ != pid@ by {
                if ps[i].id@ == pid@ {
                    lemma_projectile_id_counter(
                        self.origins@[i].0,
                        self.origins@[i].1,
                        self.tick as nat,
                        self.proj_counter as nat,
                    );
                }
            }
            self.origins@ = self.origins@.push((self.tick as nat, self.proj_counter as nat));
        }
        self.proj_counter = self.proj_counter + 1;
        let proj = Projectile { id: pid, pose, ttl: PROJECTILE_TTL, owner: entity_id, weapon };
        self.state.projectiles.push(proj);
        let ent = Entity {
            id: eid,
            archetype: arch,
            pose,
            physics: Physics { mass: MIRROR_MASS, radius: MIRROR_RADIUS },
            inventory: Inventory { slots: Vec::new() },
            owner: None,
        };
        self.state.entities.push(ent);
        proof {
            let f = fire_model(m, entity_id@, weapon@, aim);
            assert(self.state.entities@.last().inventory@ =~= Seq::<(Seq<char>, i32)>::empty());
            assert(self.state.entities@.last()@ == f.state.entities.last());
            assert(self@.state.entities =~= f.state.entities);
            assert(self@.state.projectiles =~= f.state.projectiles);
        }
    }
}

fn contains_id(ids: &Vec<String>, id: &String) -> (r: bool)
    ensures
        r == exists|j: int| 0 <= j < ids@.len() && (#[trigger] ids@[j])@ == id@,
{
    let mut j: usize = 0;
    while j < ids.len()
        invariant
            0 <= j <= ids.len(),
            forall|k: int| 0 <= k < j ==> (#[trigger] ids@[k])@ != id@,
        decreases ids.len() - j,
    {
        if ids[j] == *id {
            return true;
        }
        j += 1;
    }
    false
}

impl Sim {
    fn integrate_entities(&mut self)
        ensures
            final(self).state.world == old(self).state.world,
            final(self).state.projectiles == old(self).state.projectiles,
            final(self).tick == old(self).tick,
            final(self).proj_counter == old(self).proj_counter,
            final(self).origins == old(self).origins,
            entities_view(final(self).state.entities@) == entities_view(old(self).state.entities@).map_values(
                |e: EntityView| step_entity(e),
            ),
    {
        let n = self.state.entities.len();
        let mut i: usize = 0;
        while i < n
            invariant
                n == self.state.entities.len(),
                0 <= i <= n,
                self.state.world == old(self).state.world,
                self.state.projectiles == old(self).state.projectiles,
                self.tick == old(self).tick,
                self.proj_counter == old(self).proj_counter,
                self.origins == old(self).origins,
                n == old(self).state.entities.len(),
                forall|k: int| 0 <= k < i ==> (#[trigger] self.state.entities@[k])@ == step_entity(
                    old(self).state.entities@[k]@,
                ),
                forall|k: int| i <= k < n ==> #[trigger] self.state.entities@[k] == old(self).state.entities@[k],
            decreases n - i,
        {
            let pose = self.state.entities[i].pose;
            let (np, nv) = self.integ.step(pose.p, pose.v, DT);
            self.state.entities[i].pose = Pose { p: np, v: nv, theta: pose.theta, omega: pose.omega };
            i += 1;
        }
        assert(entities_view(self.state.entities@) =~= entities_view(old(self).state.entities@).map_values(
            |e: EntityView| step_entity(e),
        ));
    }

    fn integrate_projectiles(&mut self)
        ensures
            final(self).state.world == old(self).state.world,
            final(self).state.entities == old(self).state.entities,
            final(self).tick == old(self).tick,
            final(self).proj_counter == old(self).proj_counter,
            final(self).origins == old(self).origins,
            final(self).state.projectiles@.len() == old(self).state.projectiles@.len(),
            forall|k: int| 0 <= k < final(self).state.projectiles@.len() ==> (#[trigger] final(self).state.projectiles@[k]).id
                == old(self).state.projectiles@[k].id,
            projectiles_view(final(self).state.projectiles@) == projectiles_view(
                old(self).state.projectiles@,
            ).map_values(|p: ProjectileView| step_projectile(p)),
    {
        let n = self.state.projectiles.len();
        let mut i: usize = 0;
        while i < n
            invariant
                n == self.state.projectiles.len(),
                0 <= i <= n,
                self.state.world == old(self).state.world,
                self.state.entities == old(self).state.entities,
                self.tick == old(self).tick,
                self.proj_counter == old(self).proj_counter,
                self.origins == old(self).origins,
                n == old(self).state.projectiles.len(),
                forall|k: int| 0 <= k < i ==> (#[trigger] self.state.projectiles@[k])@ == step_projectile(
                    old(self).state.projectiles@[k]@,
                ),
                forall|k: int| 0 <= k < i ==> (#[trigger] self.state.projectiles@[k]).id
                    == old(self).state.projectiles@[k].id,
                forall|k: int| i <= k < n ==> #[trigger] self.state.projectiles@[k] == old(self).state.projectiles@[k],
            decreases n - i,
        {
            let pose = self.state.projectiles[i].pose;
            let (np, nv) = self.integ.step(pose.p, pose.v, DT);
            self.state.projectiles[i].pose = Pose { p: np, v: nv, theta: pose.theta, omega: pose.omega };
            if self.state.projectiles[i].ttl > 0 {
                self.state.projectiles[i].ttl = self.state.projectiles[i].ttl - 1;
            }
            i += 1;
        }
        assert(projectiles_view(self.state.projectiles@) =~= projectiles_view(
            old(self).state.projectiles@,
        ).map_values(|p: ProjectileView| step_projectile(p)));
    }
}

fn any_expired_exec(ps: &Vec<Projectile>) -> (r: bool)
    ensures
        r == any_expired(projectiles_view(ps@)),
{
    let ghost pv = projectiles_view(ps@);
    let mut i: usize = 0;
    while i < ps.len()
        invariant
            0 <= i <= ps@.len(),
            pv == projectiles_view(ps@),
            forall|k: int| 0 <= k < i ==> (#[trigger] pv[k]).ttl != 0,
        decreases ps.len() - i,
    {
        if ps[i].ttl == 0 {
            assert(pv[i as int].ttl == 0);
            return true;
        }
        i += 1;
    }
    false
}

impl Sim {
    /// Removes every expired projectile together with its mirror entity.
    fn drop_expired(&mut self)
        requires
            paired(old(self).state@),
            old(self).origins@.len() == old(self).state.projectiles@.len(),
        ensures
            final(self).state.world == old(self).state.world,
            final(self).tick == old(self).tick,
            final(self).proj_counter == old(self).proj_counter,
            final(self).state@.entities == live_entities(old(self).state@.entities, old(self).state@.projectiles),
            final(self).state@.projectiles == live_projectiles(old(self).state@.projectiles),
            final(self).state.projectiles@ == keep_live(old(self).state.projectiles@, old(self).state@.projectiles),
            final(self).origins@ == keep_live(old(self).origins@, old(self).state@.projectiles),
    {
        let ghost ps0 = self.state.projectiles@;
        let ghost es0 = self.state.entities@;
        let ghost pv = projectiles_view(ps0);
        let n = self.state.projectiles.len();
        let mut k: usize = 0;
        let mut i: usize = 0;
        while k < n
            invariant
                0 <= i <= k <= n,
                n == ps0.len(),
                n == es0.len(),
                self.state.world == old(self).state.world,
                self.tick == old(self).tick,
                self.proj_counter == old(self).proj_counter,
                self.origins == old(self).origins,
                ps0 == old(self).state.projectiles@,
                es0 == old(self).state.entities@,
                pv == projectiles_view(ps0),
                self.state.projectiles@ == keep_live(ps0.subrange(0, k as int), pv.subrange(0, k as int))
                    + ps0.subrange(k as int, n as int),
                self.state.entities@ == keep_live(es0.subrange(0, k as int), pv.subrange(0, k as int))
                    + es0.subrange(k as int, n as int),
                i == keep_live(ps0.subrange(0, k as int), pv.subrange(0, k as int)).len(),
                i == keep_live(es0.subrange(0, k as int), pv.subrange(0, k as int)).len(),
            decreases n - k,
        {
            proof {
                assert(ps0.subrange(0, k + 1).drop_last() =~= ps0.subrange(0, k as int));
                assert(es0.subrange(0, k + 1).drop_last() =~= es0.subrange(0, k as int));
                assert(pv.subrange(0, k + 1).drop_last() =~= pv.subrange(0, k as int));
                assert(self.state.projectiles@.len() == i + (n - k));
                assert(self.state.projectiles@[i as int] == ps0[k as int]);
                assert(pv[k as int] == ps0[k as int]@);
            }
            if self.state.projectiles[i].ttl == 0 {
                self.state.projectiles.remove(i);
                self.state.entities.remove(i);
            } else {
                i += 1;
            }
            assert(self.state.projectiles@ =~= keep_live(ps0.subrange(0, k + 1), pv.subrange(0, k + 1))
                + ps0.subrange(k + 1, n as int));
            assert(self.state.entities@ =~= keep_live(es0.subrange(0, k + 1), pv.subrange(0, k + 1))
                + es0.subrange(k + 1, n as int));
            k += 1;
        }
        proof {
            assert(ps0.subrange(0, n as int) =~= ps0);
            assert(es0.subrange(0, n as int) =~= es0);
            assert(pv.subrange(0, n as int) =~= pv);
            self.origins@ = keep_live(self.origins@, pv);
            let ev = entities_view(es0);
            lemma_keep_live(es0, pv);
            lemma_keep_live(ev, pv);
            lemma_keep_live(ps0, pv);
            lemma_keep_live(pv, pv);
            let li = live_indices(pv);
            assert forall|j: int| 0 <= j < li.len() implies entities_view(self.state.entities@)[j] == keep_live(ev, pv)[j] by {
                assert(0 <= li[j] < n);
            }
            assert forall|j: int| 0 <= j < li.len() implies projectiles_view(self.state.projectiles@)[j] == keep_live(pv, pv)[j] by {
                assert(0 <= li[j] < n);
            }
            assert(entities_view(self.state.entities@) =~= keep_live(ev, pv));
            assert(projectiles_view(self.state.projectiles@) =~= keep_live(pv, pv));
        }
    }

    /// Gives every mirror entity the pose of its projectile.
    fn sync_mirrors(&mut self)
        requires
            paired(old(self).state@),
        ensures
            final(self).state.world == old(self).state.world,
            final(self).state.projectiles == old(self).state.projectiles,
            final(self).tick == old(self).tick,
            final(self).proj_counter == old(self).proj_counter,
            final(self).origins == old(self).origins,
            final(self).state@.entities == synced_entities(old(self).state@.entities, old(self).state@.projectiles),
    {
        let ghost es0 = self.state.entities@;
        let ghost pv = projectiles_view(self.state.projectiles@);
        let n = self.state.projectiles.len();
        let mut j: usize = 0;
        while j < n
            invariant
                0 <= j <= n,
                n == pv.len(),
                self.state.world == old(self).state.world,
                self.state.projectiles == old(self).state.projectiles,
                self.tick == old(self).tick,
                self.proj_counter == old(self).proj_counter,
                self.origins == old(self).origins,
                es0 == old(self).state.entities@,
                pv == projectiles_view(self.state.projectiles@),
                self.state.entities@.len() == n,
                es0.len() == n,
                forall|k: int|
                    0 <= k < j ==> (#[trigger] self.state.entities@[k])@ == synced_entities(entities_view(es0), pv)[k],
                forall|k: int| j <= k < n ==> #[trigger] self.state.entities@[k] == es0[k],
            decreases n - j,
        {
            let pose = self.state.projectiles[j].pose;
            self.state.entities[j].pose = pose;
            j += 1;
        }
        assert(entities_view(self.state.entities@) =~= synced_entities(entities_view(es0), pv));
    }

    /// Advances the world by one fixed tick.
    pub fn step(&mut self)
        requires
            old(self).wf(),
            old(self)@.tick < u64::MAX,
        ensures
            final(self).wf(),
            final(self)@ == step_model(old(self)@),
    {
        let ghost m = self@;
        self.integrate_entities();
        self.integrate_projectiles();
        let ghost mid = self.state@;
        proof {
            assert forall|i: int| 0 <= i < mid.projectiles.len() implies #[trigger] mid.entities[i].id
                == mirror_id(mid.projectiles[i].id) by {
                assert(mid.entities[i].id == m.state.entities[i].id);
                assert(mid.projectiles[i].id == m.state.projectiles[i].id);
            }
            assert(paired(mid));
            assert forall|i: int, j: int|
                0 <= i < mid.projectiles.len() && 0 <= j < mid.projectiles.len() && i != j implies
                #[trigger] mid.projectiles[i].id != #[trigger] mid.projectiles[j].id by {
                assert(mid.projectiles[i].id == m.state.projectiles[i].id);
                assert(mid.projectiles[j].id == m.state.projectiles[j].id);
            }
        }
        if any_expired_exec(&self.state.projectiles) {
            let ghost ps1 = self.state@.projectiles;
            let ghost os1 = self.origins@;
            let ghost pe1 = self.state.projectiles@;
            self.drop_expired();
            proof {
                lemma_keep_live(ps1, ps1);
                lemma_keep_live(os1, ps1);
                lemma_keep_live(pe1, ps1);
                lemma_keep_live(mid.entities, ps1);
                let li = live_indices(ps1);
                assert forall|a: int| 0 <= a < self.origins@.len() implies {
                    &&& #[trigger] self.state.projectiles@[a].id@ == projectile_id(
                        self.origins@[a].0,
                        self.origins@[a].1,
                    )
                    &&& self.origins@[a].1 < self.proj_counter
                } by {
                    assert(self.state.projectiles@[a] == pe1[li[a]]);
                }
                assert forall|a: int, b: int|
                    0 <= a < self.state@.projectiles.len() && 0 <= b < self.state@.projectiles.len() && a != b implies
                    #[trigger] self.state@.projectiles[a].id != #[trigger] self.state@.projectiles[b].id by {
                    if a < b {
                        assert(li[a] < li[b]);
                    } else {
                        assert(li[b] < li[a]);
                    }
                }
                assert forall|a: int| 0 <= a < self.state@.projectiles.len() implies
                    #[trigger] self.state@.entities[a].id == mirror_id(self.state@.projectiles[a].id) by {
                    assert(self.state@.entities[a] == mid.entities[li[a]]);
                }
            }
        } else {
            self.sync_mirrors();
        }
        self.tick = self.tick + 1;
        self.state.world.time = self.tick;
        proof {
            let f = step_model(m);
            assert(self@.state.world == f.state.world);
            assert(self@.state.entities == f.state.entities);
            assert(self@.state.projectiles == f.state.projectiles);
        }
    }
}

} // verus!
