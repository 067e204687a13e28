use owg::diff::diff_entities;
use owg::protocol::{Cmd, Entity, Evt, Inventory, Kind, Physics, Pose, State, Vec2, World};
use owg::sim::Sim;
use owg::sync::{run_cycle, tick_broadcast, wrap_events};

fn entity(id: &str, x: i64) -> Entity {
    Entity {
        id: id.to_string(),
        archetype: "rock".to_string(),
        pose: Pose { p: Vec2 { x, y: 0 }, v: Vec2 { x: 0, y: 0 }, theta: 0, omega: 0 },
        physics: Physics { mass: 1, radius: 1 },
        inventory: Inventory { slots: vec![("ore".to_string(), 2)] },
        owner: None,
    }
}

fn state(es: Vec<Entity>) -> State {
    State { world: World { seed: "s".to_string(), time: 0 }, entities: es, projectiles: vec![] }
}

#[test]
fn diff_splits_adds_updates_removes() {
    let prev = state(vec![entity("a", 0), entity("b", 0), entity("c", 0)]);
    let mut b2 = entity("b", 0);
    b2.inventory.slots.push(("gem".to_string(), 1));
    let curr = state(vec![entity("d", 5), b2, entity("a", 0)]);
    let (adds, updates, removes) = diff_entities(&prev, &curr);
    assert_eq!(adds.len(), 1);
    assert_eq!(adds[0].id, "d");
    assert_eq!(updates.len(), 1);
    assert_eq!(updates[0].id, "b");
    assert_eq!(updates[0].inventory.slots.len(), 2);
    assert_eq!(removes, vec!["c".to_string()]);
}

#[test]
fn diff_of_equal_states_is_empty() {
    let s = state(vec![entity("a", 1), entity("b", 2)]);
    let (adds, updates, removes) = diff_entities(&s, &s.copied());
    assert!(adds.is_empty() && updates.is_empty() && removes.is_empty());
    let empty = state(vec![]);
    let (adds, updates, removes) = diff_entities(&empty, &s);
    assert_eq!(adds.len(), 2);
    assert!(updates.is_empty() && removes.is_empty());
}

#[test]
fn diff_reconstructs_current_entities() {
    let prev = state(vec![entity("a", 0), entity("b", 0), entity("c", 0)]);
    let curr = state(vec![entity("c", 0), entity("a", 9), entity("e", 1)]);
    let (adds, updates, removes) = diff_entities(&prev, &curr);
    let mut rebuilt: Vec<Entity> = prev.entities.clone();
    rebuilt.extend(adds);
    for u in updates {
        for e in rebuilt.iter_mut() {
            if e.id == u.id {
                *e = u.clone();
            }
        }
    }
    rebuilt.retain(|e| !removes.contains(&e.id));
    let mut got: Vec<(String, i64)> = rebuilt.iter().map(|e| (e.id.clone(), e.pose.p.x)).collect();
    got.sort();
    assert_eq!(got, vec![("a".to_string(), 9), ("c".to_string(), 0), ("e".to_string(), 1)]);
}

#[test]
fn snapshot_every_n_ticks_else_delta() {
    let mut sim = Sim::new("W-TEST");
    let replay: Vec<(u64, Cmd)> = vec![];
    let mut last = sim.state().copied();
    let mut kinds = Vec::new();
    for _ in 0..6 {
        let env = run_cycle(&mut sim, &replay, &last, 3);
        assert!(matches!(env.kind, Kind::Evt));
        assert_eq!(env.t, sim.tick());
        assert!(env.id.is_none());
        kinds.push(matches!(env.body, Evt::Snapshot { full: true, .. }));
        last = sim.state().copied();
    }
    assert_eq!(kinds, vec![false, false, true, false, false, true]);
}

#[test]
fn replay_commands_run_before_their_tick() {
    let mut sim = Sim::new("W-TEST");
    let fire = Cmd::Fire { entity_id: "e1".to_string(), weapon: "gun".to_string(), aim: Vec2 { x: 1, y: 0 } };
    let replay: Vec<(u64, Cmd)> = vec![(2, fire.clone()), (5, fire)];
    let mut last = sim.state().copied();
    let env = run_cycle(&mut sim, &replay, &last, 10);
    assert!(sim.state().projectiles.is_empty());
    match env.body {
        Evt::Delta { adds, updates, removes } => assert!(adds.is_empty() && updates.is_empty() && removes.is_empty()),
        _ => panic!("expected a delta"),
    }
    last = sim.state().copied();
    let env = run_cycle(&mut sim, &replay, &last, 10);
    assert_eq!(sim.state().projectiles.len(), 1);
    assert_eq!(sim.state().projectiles[0].id, "p1_0");
    assert_eq!(sim.state().projectiles[0].ttl, 59);
    match env.body {
        Evt::Delta { adds, updates, removes } => {
            assert_eq!(adds.len(), 1);
            assert_eq!(adds[0].id, "e_proj_p1_0");
            assert!(updates.is_empty() && removes.is_empty());
        }
        _ => panic!("expected a delta"),
    }
    last = sim.state().copied();
    let env = run_cycle(&mut sim, &replay, &last, 10);
    match env.body {
        Evt::Delta { adds, updates, removes } => {
            assert!(adds.is_empty() && removes.is_empty());
            assert_eq!(updates.len(), 1);
        }
        _ => panic!("expected a delta"),
    }
}

#[test]
fn broadcast_on_a_snapshot_tick() {
    let mut sim = Sim::new("W-TEST");
    sim.step();
    sim.step();
    let env = tick_broadcast(&sim, &State::default(), 2);
    match env.body {
        Evt::Snapshot { full, state } => {
            assert!(full);
            assert_eq!(state.world.time, 2);
            assert_eq!(state.world.seed, "W-TEST");
        }
        _ => panic!("expected a snapshot"),
    }
    let snap = sim.snapshot_envelope();
    assert_eq!(snap.t, 2);
}

#[test]
fn events_wrapped_in_order() {
    let evs = vec![
        Evt::Pong { nonce: "1".to_string(), rtt_ms: 0 },
        Evt::Desync { client_hash: "x".to_string(), server_hash: "y".to_string(), at_tick: 4 },
    ];
    let envs = wrap_events(evs, 7);
    assert_eq!(envs.len(), 2);
    assert!(matches!(&envs[0].body, Evt::Pong { nonce, .. } if nonce == "1"));
    assert!(matches!(&envs[1].body, Evt::Desync { at_tick: 4, .. }));
    assert!(envs.iter().all(|e| e.t == 7 && e.schema.major == 0 && e.schema.minor == 1));
}

#[test]
fn replay_records_sorted_stably_by_tick() {
    let ping = |n: &str| Cmd::Ping { nonce: n.to_string() };
    let records: Vec<(u64, Cmd)> = vec![(5, ping("a")), (2, ping("b")), (5, ping("c")), (0, ping("d")), (2, ping("e"))];
    let sorted = owg::sync::sort_by_tick(records);
    let got: Vec<(u64, String)> = sorted
        .iter()
        .map(|(t, c)| match c {
            Cmd::Ping { nonce } => (*t, nonce.clone()),
            _ => panic!("unexpected command"),
        })
        .collect();
    let want: Vec<(u64, String)> =
        vec![(0, "d"), (2, "b"), (2, "e"), (5, "a"), (5, "c")].into_iter().map(|(t, n)| (t, n.to_string())).collect();
    assert_eq!(got, want);
    assert!(owg::sync::sort_by_tick(vec![]).is_empty());
}
