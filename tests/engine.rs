use owg::physics::{Integrator, DT, LAUNCH_SPEED};
use owg::protocol::{Cmd, Evt, Vec2, UNIT};
use owg::sim::{Sim, PROJECTILE_TTL};

fn fire(entity: &str, weapon: &str, x: i64, y: i64) -> Cmd {
    Cmd::Fire { entity_id: entity.to_string(), weapon: weapon.to_string(), aim: Vec2 { x, y } }
}

#[test]
fn fire_then_three_steps() {
    let mut sim = Sim::new("W-TEST");
    let evs = sim.apply(fire("e1", "gun", UNIT, 0));
    assert!(evs.is_empty());
    for _ in 0..3 {
        sim.step();
    }
    let st = sim.state();
    assert_eq!(st.projectiles.len(), 1);
    assert_eq!(st.projectiles[0].ttl, 57);
    assert_eq!(st.entities.len(), 1);
    assert_eq!(st.entities[0].pose.p.x, 3 * LAUNCH_SPEED * DT / UNIT);
    assert_eq!(st.entities[0].pose.p.x, 15_000);
    assert_eq!(st.entities[0].pose.p.y, 0);
    assert_eq!(sim.tick(), 3);
    assert_eq!(st.world.time, 3);
}

#[test]
fn ping_returns_pong() {
    let mut sim = Sim::new("W-TEST");
    let evs = sim.apply(Cmd::Ping { nonce: "abc".to_string() });
    assert_eq!(evs.len(), 1);
    match &evs[0] {
        Evt::Pong { nonce, rtt_ms } => {
            assert_eq!(nonce, "abc");
            assert_eq!(*rtt_ms, 0);
        }
        _ => panic!("expected a pong"),
    }
    assert_eq!(sim.tick(), 0);
}

#[test]
fn mine_yields_one_ore() {
    let mut sim = Sim::new("W-TEST");
    let evs = sim.apply(Cmd::Mine { entity_id: "e9".to_string(), target: "rock".to_string() });
    assert_eq!(evs.len(), 1);
    match &evs[0] {
        Evt::Mined { miner_id, node_id, yields } => {
            assert_eq!(miner_id, "e9");
            assert_eq!(node_id, "rock");
            assert_eq!(yields.len(), 1);
            assert_eq!(yields[0].0, "FeOre");
            assert_eq!(yields[0].1, 1);
        }
        _ => panic!("expected mined"),
    }
}

#[test]
fn reserved_commands_do_nothing() {
    let mut sim = Sim::new("W-TEST");
    let before = sim.state_hash();
    let cmds = vec![
        Cmd::Move { entity_id: "e1".to_string(), axis: Vec2 { x: 1, y: 0 }, thrust: 5 },
        Cmd::Craft { entity_id: "e1".to_string(), recipe_id: "r".to_string(), inputs: vec![("a".to_string(), 2)] },
        Cmd::UseItem { entity_id: "e1".to_string(), slot: 3 },
    ];
    for c in cmds {
        assert!(sim.apply(c).is_empty());
    }
    assert_eq!(sim.state_hash(), before);
}

#[test]
fn fire_creates_paired_records() {
    let mut sim = Sim::new("W-TEST");
    sim.step();
    sim.step();
    sim.apply(fire("e1", "gun", 1, 0));
    sim.apply(fire("e2", "laser", 0, 1));
    let st = sim.state();
    assert_eq!(st.projectiles[0].id, "p2_0");
    assert_eq!(st.projectiles[1].id, "p2_1");
    assert_eq!(st.entities[0].id, "e_proj_p2_0");
    assert_eq!(st.entities[1].id, "e_proj_p2_1");
    assert_eq!(st.entities[1].archetype, "projectile/laser");
    assert_eq!(st.projectiles[0].owner, "e1");
    assert_eq!(st.projectiles[1].weapon, "laser");
    assert_eq!(st.projectiles[0].ttl, PROJECTILE_TTL);
    assert_eq!(st.entities[0].physics.mass, UNIT);
    assert_eq!(st.entities[0].physics.radius, UNIT / 5);
    assert!(st.entities[0].owner.is_none());
    assert!(st.entities[0].inventory.slots.is_empty());
}

#[test]
fn mirrors_match_projectiles_every_tick() {
    let mut sim = Sim::new("W-TEST");
    for t in 0..130u64 {
        if t % 7 == 0 {
            sim.apply(fire("e1", "gun", 1, (t as i64) - 50));
        }
        sim.step();
        let st = sim.state();
        assert_eq!(st.entities.len(), st.projectiles.len());
        for (e, p) in st.entities.iter().zip(st.projectiles.iter()) {
            assert_eq!(e.id, format!("e_proj_{}", p.id));
        }
    }
}

#[test]
fn projectile_lives_exactly_its_ttl() {
    let mut sim = Sim::new("W-TEST");
    sim.apply(fire("e1", "gun", 1, 0));
    for k in 1..60u16 {
        sim.step();
        assert_eq!(sim.state().projectiles.len(), 1);
        assert_eq!(sim.state().projectiles[0].ttl, 60 - k);
        assert_eq!(sim.state().entities.len(), 1);
    }
    sim.step();
    assert!(sim.state().projectiles.is_empty());
    assert!(sim.state().entities.is_empty());
}

#[test]
fn expiry_keeps_the_younger_pair() {
    let mut sim = Sim::new("W-TEST");
    sim.apply(fire("e1", "gun", 1, 0));
    for _ in 0..10 {
        sim.step();
    }
    sim.apply(fire("e2", "gun", 0, 1));
    for _ in 0..50 {
        sim.step();
    }
    let st = sim.state();
    assert_eq!(st.projectiles.len(), 1);
    assert_eq!(st.projectiles[0].id, "p10_1");
    assert_eq!(st.entities.len(), 1);
    assert_eq!(st.entities[0].id, "e_proj_p10_1");
    assert_eq!(st.projectiles[0].ttl, 10);
}

#[test]
fn aim_is_normalised() {
    let mut sim = Sim::new("W-TEST");
    sim.apply(fire("e1", "gun", 3, 4));
    sim.apply(fire("e1", "gun", 0, 0));
    sim.apply(fire("e1", "gun", -7, 0));
    let st = sim.state();
    assert_eq!(st.projectiles[0].pose.v, Vec2 { x: 180_000, y: 240_000 });
    assert_eq!(st.projectiles[1].pose.v, Vec2 { x: 0, y: 0 });
    assert_eq!(st.projectiles[2].pose.v, Vec2 { x: -LAUNCH_SPEED, y: 0 });
    assert_eq!(st.entities[0].pose, st.projectiles[0].pose);
}

#[test]
fn extreme_aim_stays_in_range() {
    let mut sim = Sim::new("W-TEST");
    sim.apply(fire("e1", "gun", i64::MIN, i64::MAX));
    let v = sim.state().projectiles[0].pose.v;
    assert!(v.x.abs() <= LAUNCH_SPEED && v.y.abs() <= LAUNCH_SPEED);
    assert!(v.x < 0 && v.y > 0);
}

#[test]
fn integrator_rounds_down_and_saturates() {
    let integ = Integrator::default();
    let (p, v) = integ.step(Vec2 { x: 0, y: 10 }, Vec2 { x: -1, y: 60 }, DT);
    assert_eq!(p, Vec2 { x: -1, y: 11 });
    assert_eq!(v, Vec2 { x: -1, y: 60 });
    let (p, _) = integ.step(Vec2 { x: i64::MAX - 1, y: i64::MIN + 1 }, Vec2 { x: i64::MAX, y: i64::MIN }, DT);
    assert_eq!(p, Vec2 { x: i64::MAX, y: i64::MIN });
}

#[test]
fn step_moves_mirror_with_projectile() {
    let mut sim = Sim::new("W-TEST");
    sim.apply(fire("e1", "gun", 0, -1));
    sim.step();
    let st = sim.state();
    assert_eq!(st.projectiles[0].pose.p, Vec2 { x: 0, y: -5_000 });
    assert_eq!(st.entities[0].pose, st.projectiles[0].pose);
}
