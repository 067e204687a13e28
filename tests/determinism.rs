use owg::fingerprint::hash_state;
use owg::protocol::{Cmd, State, Vec2};
use owg::sim::Sim;

#[test]
fn stable_hash_for_default_state() {
    let s = State::default();
    let h1 = hash_state(&s);
    let h2 = hash_state(&s);
    assert_eq!(h1, h2);
    assert!(!h1.is_empty());
}

fn fire(entity: &str, x: i64, y: i64) -> Cmd {
    Cmd::Fire { entity_id: entity.to_string(), weapon: "gun".to_string(), aim: Vec2 { x, y } }
}

fn run_session() -> Sim {
    let mut sim = Sim::new("W-SEED");
    sim.apply(fire("e1", 1, 0));
    sim.step();
    sim.apply(fire("e2", 0, -2));
    sim.step();
    sim.step();
    sim.apply(fire("e1", 3, 4));
    for _ in 0..10 {
        sim.step();
    }
    sim
}

#[test]
fn same_session_same_fingerprint() {
    let a = run_session();
    let b = run_session();
    assert_eq!(a.tick(), b.tick());
    assert_eq!(a.state_hash(), b.state_hash());
}

#[test]
fn hash_is_64_lowercase_hex_chars() {
    let h = hash_state(&State::default());
    assert_eq!(h.len(), 64);
    assert!(h.chars().all(|c| c.is_ascii_hexdigit() && !c.is_ascii_uppercase()));
}

#[test]
fn equal_states_built_differently_hash_alike() {
    let mut a = Sim::new("W-TEST");
    a.apply(fire("e1", 1, 0));
    a.step();
    let copy = a.state().copied();
    assert_eq!(hash_state(&copy), a.state_hash());
    let b = a.state().clone();
    assert_eq!(hash_state(&b), a.state_hash());
}

#[test]
fn changing_a_position_changes_the_fingerprint() {
    let mut a = Sim::new("W-TEST");
    a.apply(fire("e1", 1, 0));
    let base = a.state().copied();
    let mut moved = base.copied();
    moved.entities[0].pose.p.x += 1;
    assert_ne!(hash_state(&base), hash_state(&moved));
    let mut later = base.copied();
    later.world.time += 1;
    assert_ne!(hash_state(&base), hash_state(&later));
}

#[test]
fn different_seeds_hash_differently() {
    let a = Sim::new("W-A");
    let b = Sim::new("W-B");
    assert_ne!(a.state_hash(), b.state_hash());
}
