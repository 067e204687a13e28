//! Properties of the engine over many ticks: projectiles stay paired with
//! their mirrors, live exactly as long as their time to live, and a replay
//! of the same commands reproduces the same state and fingerprint.
use vstd::prelude::*;
use crate::fingerprint::fingerprint;
use crate::ids::{lemma_mirror_injective, mirror_id, projectile_id};
use crate::protocol::{EntityView, ProjectileView, Vec2};
use crate::sim::{
    any_expired, apply_args, fire_model, lemma_keep_live, live_indices, step_model,
    step_projectile, valid, Sim, SimView,
};

verus! {

/// In a well-formed engine, the ids of the mirror entities are exactly the
/// mirror ids of the projectiles.
pub proof fn lemma_projectiles_mirrored(sim: &Sim)
    requires
        sim.wf(),
    ensures
        sim@.state.projectiles.map_values(|p: ProjectileView| mirror_id(p.id)).to_set()
            == sim@.state.entities.map_values(|e: EntityView| e.id).to_set(),
{
    sim.lemma_wf_valid();
    let s = sim@.state;
    assert(s.projectiles.map_values(|p: ProjectileView| mirror_id(p.id)) =~= s.entities.map_values(
        |e: EntityView| e.id,
    ));
}

/// A tick keeps the engine's invariant.
pub proof fn lemma_step_valid(m: SimView)
    requires
        valid(m),
        m.tick < u64::MAX,
    ensures
        valid(step_model(m)),
{
    let es = m.state.entities.map_values(|e: EntityView| crate::sim::step_entity(e));
    let ps = m.state.projectiles.map_values(|p: ProjectileView| step_projectile(p));
    let n = step_model(m);
    if any_expired(ps) {
        lemma_keep_live(ps, ps);
        lemma_keep_live(es, ps);
        let li = live_indices(ps);
        assert forall|a: int, b: int|
            0 <= a < n.state.projectiles.len() && 0 <= b < n.state.projectiles.len() && a != b implies
            #[trigger] n.state.projectiles[a].id != #[trigger] n.state.projectiles[b].id by {
            if a < b {
                assert(li[a] < li[b]);
            } else {
                assert(li[b] < li[a]);
            }
            assert(m.state.projectiles[li[a]].id != m.state.projectiles[li[b]].id);
        }
        assert forall|a: int| 0 <= a < n.state.projectiles.len() implies #[trigger] n.state.entities[a].id
            == mirror_id(n.state.projectiles[a].id) by {
            assert(m.state.entities[li[a]].id == mirror_id(m.state.projectiles[li[a]].id));
        }
    } else {
        assert forall|a: int, b: int|
            0 <= a < n.state.projectiles.len() && 0 <= b < n.state.projectiles.len() && a != b implies
            #[trigger] n.state.projectiles[a].id != #[trigger] n.state.projectiles[b].id by {
            assert(m.state.projectiles[a].id != m.state.projectiles[b].id);
        }
        assert forall|a: int| 0 <= a < n.state.projectiles.len() implies #[trigger] n.state.entities[a].id
            == mirror_id(n.state.projectiles[a].id) by {
            assert(m.state.entities[a].id == mirror_id(m.state.projectiles[a].id));
        }
    }
}

/// The engine after `k` ticks.
pub open spec fn steps(m: SimView, k: nat) -> SimView
    decreases k,
{
    if k == 0 {
        m
    } else {
        step_model(steps(m, (k - 1) as nat))
    }
}

pub open spec fn has_projectile(m: SimView, id: Seq<char>, ttl: u16) -> bool {
    exists|j: int|
        0 <= j < m.state.projectiles.len() && (#[trigger] m.state.projectiles[j]).id == id
            && m.state.projectiles[j].ttl == ttl
}

pub open spec fn projectile_gone(m: SimView, id: Seq<char>) -> bool {
    &&& forall|j: int| 0 <= j < m.state.projectiles.len() ==> (#[trigger] m.state.projectiles[j]).id != id
    &&& forall|j: int| 0 <= j < m.state.entities.len() ==> (#[trigger] m.state.entities[j]).id != mirror_id(id)
}

proof fn lemma_steps_valid(m: SimView, k: nat)
    requires
        valid(m),
        m.tick + k < u64::MAX,
    ensures
        valid(steps(m, k)),
        steps(m, k).tick == m.tick + k,
    decreases k,
{
    if k > 0 {
        lemma_steps_valid(m, (k - 1) as nat);
        lemma_step_valid(steps(m, (k - 1) as nat));
    }
}

/// One tick takes a projectile with `ttl > 1` to `ttl - 1`, and removes one
/// with `ttl == 1` together with its mirror.
proof fn lemma_step_ttl(m: SimView, id: Seq<char>, ttl: u16)
    requires
        valid(m),
        m.tick < u64::MAX,
        has_projectile(m, id, ttl),
        ttl >= 1,
    ensures
        ttl > 1 ==> has_projectile(step_model(m), id, (ttl - 1) as u16),
        ttl == 1 ==> projectile_gone(step_model(m), id),
{
    let ps = m.state.projectiles.map_values(|p: ProjectileView| step_projectile(p));
    let n = step_model(m);
    let j = choose|j: int| 0 <= j < m.state.projectiles.len() && (#[trigger] m.state.projectiles[j]).id == id
        && m.state.projectiles[j].ttl == ttl;
    assert(ps[j].id == id && ps[j].ttl == ttl - 1);
    lemma_step_valid(m);
    if any_expired(ps) {
        lemma_keep_live(ps, ps);
        let li = live_indices(ps);
        if ttl > 1 {
            let a = choose|a: int| 0 <= a < li.len() && li[a] == j;
            assert(n.state.projectiles[a] == ps[j]);
        } else {
            assert forall|a: int| 0 <= a < n.state.projectiles.len() implies (#[trigger] n.state.projectiles[a]).id
                != id by {
                assert(n.state.projectiles[a] == ps[li[a]]);
                if li[a] != j {
                    assert(m.state.projectiles[li[a]].id != m.state.projectiles[j].id);
                }
            }
            assert forall|a: int| 0 <= a < n.state.entities.len() implies (#[trigger] n.state.entities[a]).id
                != mirror_id(id) by {
                assert(n.state.entities[a].id == mirror_id(n.state.projectiles[a].id));
                if n.state.entities[a].id == mirror_id(id) {
                    lemma_mirror_injective(n.state.projectiles[a].id, id);
                }
            }
        }
    } else {
        assert(ps[j].ttl != 0);
        assert(n.state.projectiles[j] == ps[j]);
    }
}

/// A projectile with `ttl` ticks left is present, counting down, through the
/// next `ttl - 1` ticks, and the tick after those removes it and its mirror.
pub proof fn lemma_ttl_lifetime(m: SimView, id: Seq<char>, ttl: u16, k: nat)
    requires
        valid(m),
        m.tick + ttl < u64::MAX,
        has_projectile(m, id, ttl),
        ttl >= 1,
        k <= ttl,
    ensures
        k < ttl ==> has_projectile(steps(m, k), id, (ttl - k) as u16),
        k == ttl ==> projectile_gone(steps(m, k), id),
    decreases k,
{
    if k > 0 {
        lemma_ttl_lifetime(m, id, ttl, (k - 1) as nat);
        lemma_steps_valid(m, (k - 1) as nat);
        let prev = steps(m, (k - 1) as nat);
        let left = (ttl - (k - 1)) as u16;
        assert(has_projectile(prev, id, left));
        lemma_step_ttl(prev, id, left);
        assert(steps(m, k) == step_model(prev));
        if k == ttl {
            assert(left == 1);
        } else {
            assert(left > 1);
            assert((left - 1) as u16 == (ttl - k) as u16);
        }
    }
}

/// A fired projectile starts with sixty ticks to live, under the id made
/// from the current tick and counter.
pub proof fn lemma_fire_starts_lifetime(m: SimView, entity_id: Seq<char>, weapon: Seq<char>, aim: Vec2)
    ensures
        has_projectile(
            fire_model(m, entity_id, weapon, aim),
            projectile_id(m.tick as nat, m.proj_counter as nat),
            60,
        ),
{
    let f = fire_model(m, entity_id, weapon, aim);
    assert(f.state.projectiles[m.state.projectiles.len() as int].ttl == 60);
}

/// A step of a recorded session: a command (what the engine reads of it) or
/// a tick.
pub ghost enum SessionStep {
    Command(Option<(Seq<char>, Seq<char>, Vec2)>),
    Tick,
}

/// The engine after a recorded session.
pub open spec fn replay_session(m: SimView, session: Seq<SessionStep>) -> SimView
    decreases session.len(),
{
    if session.len() == 0 {
        m
    } else {
        let before = replay_session(m, session.drop_last());
        match session.last() {
            SessionStep::Command(f) => apply_args(before, f),
            SessionStep::Tick => step_model(before),
        }
    }
}

/// Two engines in the same state that replay the same session end in the
/// same state, with the same fingerprint.
pub proof fn lemma_replay_deterministic(a: SimView, b: SimView, session: Seq<SessionStep>)
    requires
        a == b,
    ensures
        replay_session(a, session) == replay_session(b, session),
        fingerprint(replay_session(a, session).state) == fingerprint(replay_session(b, session).state),
{
}

} // verus!
