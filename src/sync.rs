//! The synchronisation cycle: which scheduled commands run before a tick, and
//! whether a tick is broadcast as a full snapshot or as a delta.
use vstd::prelude::*;
use crate::diff::{added, diff_entities, removed, strings_view, updated};
use crate::protocol::{entities_view, Cmd, Envelope, Evt, Kind, SchemaVersion, State, StateView, Vec2};
use crate::sim::{apply_args, fire_args, step_model, Sim, SimView};

verus! {

broadcast use vstd::seq_lib::group_filter_ensures;

/// Whether `env` is an event envelope of the current schema, stamped with
/// tick `t` and no correlation id.
pub open spec fn event_envelope(env: Envelope<Evt>, t: u64) -> bool {
    &&& env.kind == Kind::Evt
    &&& env.schema.major == 0 && env.schema.minor == 1
    &&& env.t == t
    &&& env.id is None
}

/// Whether `env` carries a full snapshot of `s`.
pub open spec fn is_snapshot_of(env: Envelope<Evt>, s: StateView) -> bool {
    &&& env.body is Snapshot
    &&& env.body->Snapshot_full
    &&& env.body->Snapshot_state@ == s
}

/// Whether `env` carries the delta from `prev` to `curr`.
pub open spec fn is_delta_of(env: Envelope<Evt>, prev: StateView, curr: StateView) -> bool {
    &&& env.body is Delta
    &&& entities_view(env.body->Delta_adds@) == added(prev.entities, curr.entities)
    &&& entities_view(env.body->Delta_updates@) == updated(prev.entities, curr.entities)
    &&& strings_view(env.body->Delta_removes@) == removed(prev.entities, curr.entities)
}

/// Wraps an event for broadcast at tick `t`.
pub fn event_at(evt: Evt, t: u64) -> (r: Envelope<Evt>)
    ensures
        event_envelope(r, t),
        r.body == evt,
{
    Envelope { kind: Kind::Evt, schema: SchemaVersion::v0_1(), t, id: None, body: evt }
}

/// Wraps each of `events` for broadcast at tick `t`, in order.
pub fn wrap_events(events: Vec<Evt>, t: u64) -> (r: Vec<Envelope<Evt>>)
    ensures
        r@.len() == events@.len(),
        forall|i: int| 0 <= i < r@.len() ==> event_envelope(#[trigger] r@[i], t) && r@[i].body == events@[i],
{
    let ghost evs = events@;
    let mut events = events;
    let mut rev: Vec<Envelope<Evt>> = Vec::new();
    while events.len() > 0
        invariant
            rev@.len() + events@.len() == evs.len(),
            events@ == evs.subrange(0, events@.len() as int),
            forall|i: int|
                0 <= i < rev@.len() ==> event_envelope(#[trigger] rev@[i], t) && rev@[i].body == evs[evs.len()
                    - 1 - i],
        decreases events.len(),
    {
        let e = events.pop().unwrap();
        rev.push(event_at(e, t));
        assert(events@ =~= evs.subrange(0, events@.len() as int));
    }
    let mut r: Vec<Envelope<Evt>> = Vec::new();
    while rev.len() > 0
        invariant
            rev@.len() + r@.len() == evs.len(),
            forall|i: int|
                0 <= i < rev@.len() ==> event_envelope(#[trigger] rev@[i], t) && rev@[i].body == evs[evs.len()
                    - 1 - i],
            forall|i: int| 0 <= i < r@.len() ==> event_envelope(#[trigger] r@[i], t) && r@[i].body == evs[i],
        decreases rev.len(),
    {
        let e = rev.pop().unwrap();
        r.push(e);
    }
    r
}

impl Sim {
    /// A full snapshot of the current state, stamped with the current tick.
    pub fn snapshot_envelope(&self) -> (r: Envelope<Evt>)
        ensures
            event_envelope(r, self@.tick),
            is_snapshot_of(r, self@.state),
    {
        event_at(Evt::Snapshot { full: true, state: self.state().copied() }, self.tick())
    }
}

/// The broadcast after a tick: a full snapshot when the tick is a multiple of
/// `snapshot_interval`, else the delta from `last` to the current state.
pub fn tick_broadcast(sim: &Sim, last: &State, snapshot_interval: u64) -> (r: Envelope<Evt>)
    requires
        snapshot_interval > 0,
    ensures
        event_envelope(r, sim@.tick),
        sim@.tick % snapshot_interval == 0 ==> is_snapshot_of(r, sim@.state),
        sim@.tick % snapshot_interval != 0 ==> is_delta_of(r, last@, sim@.state),
{
    if sim.tick() % snapshot_interval == 0 {
        sim.snapshot_envelope()
    } else {
        let (adds, updates, removes) = diff_entities(last, sim.state());
        event_at(Evt::Delta { adds, updates, removes }, sim.tick())
    }
}

/// What the engine reads of the commands scheduled for tick `t`, in order.
pub open spec fn scheduled(replay: Seq<(u64, Cmd)>, t: u64) -> Seq<Option<(Seq<char>, Seq<char>, Vec2)>>
    decreases replay.len(),
{
    if replay.len() == 0 {
        Seq::empty()
    } else {
        let rest = scheduled(replay.drop_last(), t);
        if replay.last().0 == t {
            rest.push(fire_args(replay.last().1))
        } else {
            rest
        }
    }
}

/// The engine after applying commands with arguments `fs` in order.
pub open spec fn apply_all(m: SimView, fs: Seq<Option<(Seq<char>, Seq<char>, Vec2)>>) -> SimView
    decreases fs.len(),
{
    if fs.len() == 0 {
        m
    } else {
        apply_args(apply_all(m, fs.drop_last()), fs.last())
    }
}

proof fn lemma_apply_all_counter(m: SimView, fs: Seq<Option<(Seq<char>, Seq<char>, Vec2)>>)
    requires
        m.proj_counter + fs.len() <= u64::MAX,
    ensures
        apply_all(m, fs).proj_counter <= m.proj_counter + fs.len(),
        apply_all(m, fs).tick == m.tick,
    decreases fs.len(),
{
    if fs.len() > 0 {
        lemma_apply_all_counter(m, fs.drop_last());
    }
}

proof fn lemma_scheduled_len(replay: Seq<(u64, Cmd)>, t: u64)
    ensures
        scheduled(replay, t).len() <= replay.len(),
    decreases replay.len(),
{
    if replay.len() > 0 {
        lemma_scheduled_len(replay.drop_last(), t);
    }
}

/// One cycle of the synchronisation loop: apply the commands that `replay`
/// schedules for the upcoming tick, step once, and produce the broadcast.
pub fn run_cycle(sim: &mut Sim, replay: &Vec<(u64, Cmd)>, last: &State, snapshot_interval: u64) -> (r:
    Envelope<Evt>)
    requires
        old(sim).wf(),
        snapshot_interval > 0,
        old(sim)@.tick < u64::MAX,
        old(sim)@.proj_counter + replay@.len() < u64::MAX,
    ensures
        final(sim).wf(),
        final(sim)@ == step_model(apply_all(old(sim)@, scheduled(replay@, (old(sim)@.tick + 1) as u64))),
        event_envelope(r, final(sim)@.tick),
        final(sim)@.tick % snapshot_interval == 0 ==> is_snapshot_of(r, final(sim)@.state),
        final(sim)@.tick % snapshot_interval != 0 ==> is_delta_of(r, last@, final(sim)@.state),
{
    let t = sim.tick() + 1;
    let ghost m0 = sim@;
    let mut i: usize = 0;
    while i < replay.len()
        invariant
            0 <= i <= replay@.len(),
            t == m0.tick + 1,
            m0.tick < u64::MAX,
            m0.proj_counter + replay@.len() < u64::MAX,
            sim.wf(),
            sim@ == apply_all(m0, scheduled(replay@.subrange(0, i as int), t)),
        decreases replay.len() - i,
    {
        proof {
            assert(replay@.subrange(0, i + 1).drop_last() =~= replay@.subrange(0, i as int));
            lemma_scheduled_len(replay@.subrange(0, i as int), t);
            lemma_apply_all_counter(m0, scheduled(replay@.subrange(0, i as int), t));
        }
        let ghost before = scheduled(replay@.subrange(0, i as int), t);
        if replay[i].0 == t {
            let cmd = replay[i].1.copied();
            assert(fire_args(cmd) == fire_args(replay@[i as int].1));
            let _ = sim.apply(cmd);
            assert(scheduled(replay@.subrange(0, i + 1), t) == before.push(fire_args(cmd)));
            assert(before.push(fire_args(cmd)).drop_last() =~= before);
        } else {
            assert(scheduled(replay@.subrange(0, i + 1), t) == before);
        }
        i += 1;
    }
    assert(replay@.subrange(0, replay@.len() as int) =~= replay@);
    proof {
        lemma_scheduled_len(replay@, t);
        lemma_apply_all_counter(m0, scheduled(replay@, t));
    }
    sim.step();
    tick_broadcast(sim, last, snapshot_interval)
}

/// The records of `s` scheduled for tick `t`, in order.
pub open spec fn tick_group(s: Seq<(u64, Cmd)>, t: u64) -> Seq<(u64, Cmd)> {
    s.filter(|r: (u64, Cmd)| r.0 == t)
}

pub open spec fn sorted_by_tick(s: Seq<(u64, Cmd)>) -> bool {
    forall|i: int, j: int| 0 <= i < j < s.len() ==> (#[trigger] s[i]).0 <= (#[trigger] s[j]).0
}

/// Sorts replay records by ascending tick; records of the same tick keep
/// their order.
pub fn sort_by_tick(records: Vec<(u64, Cmd)>) -> (r: Vec<(u64, Cmd)>)
    ensures
        sorted_by_tick(r@),
        forall|t: u64| #[trigger] tick_group(r@, t) == tick_group(records@, t),
{
    let ghost orig = records@;
    let mut records = records;
    let mut out: Vec<(u64, Cmd)> = Vec::new();
    while records.len() > 0
        invariant
            sorted_by_tick(out@),
            forall|t: u64| #[trigger] tick_group(orig, t) == tick_group(records@, t) + tick_group(out@, t),
        decreases records.len(),
    {
        let ghost rec0 = records@;
        let ghost out0 = out@;
        let x = records.pop().unwrap();
        let mut k: usize = 0;
        while k < out.len() && out[k].0 < x.0
            invariant
                0 <= k <= out@.len(),
                out@ == out0,
                forall|i: int| 0 <= i < k ==> (#[trigger] out@[i]).0 < x.0,
            decreases out.len() - k,
        {
            k += 1;
        }
        proof {
            assert(rec0 =~= records@ + seq![x]);
            assert forall|i: int| k <= i < out0.len() implies (#[trigger] out0[i]).0 >= x.0 by {
                if out0[i].0 < x.0 {
                    assert(out0[k as int].0 <= out0[i].0);
                }
            }
        }
        out.insert(k, x);
        proof {
            let pre = out0.subrange(0, k as int);
            let post = out0.subrange(k as int, out0.len() as int);
            assert(out0 =~= pre + post);
            assert(out@ =~= pre + seq![x] + post);
            assert forall|t: u64| #[trigger] tick_group(orig, t) == tick_group(records@, t) + tick_group(out@, t) by {
                let f = |r: (u64, Cmd)| r.0 == t;
                Seq::filter_distributes_over_add(records@, seq![x], f);
                Seq::filter_distributes_over_add(pre, post, f);
                Seq::filter_distributes_over_add(pre + seq![x], post, f);
                Seq::filter_distributes_over_add(pre, seq![x], f);
                reveal(Seq::filter);
                assert(seq![x].drop_last() =~= Seq::<(u64, Cmd)>::empty());
                if x.0 == t {
                    if pre.filter(f).len() > 0 {
                        let e = pre.filter(f)[0];
                        pre.lemma_filter_contains_rev(f, e);
                        let i = choose|i: int| 0 <= i < pre.len() && pre[i] == e;
                        assert(out0[i].0 < x.0);
                    }
                    assert(pre.filter(f) =~= Seq::<(u64, Cmd)>::empty());
                }
                assert(tick_group(rec0, t) == tick_group(records@, t) + tick_group(seq![x], t));
            }
            assert forall|i: int, j: int| 0 <= i < j < out@.len() implies (#[trigger] out@[i]).0 <= (#[trigger] out@[j]).0 by {
                if i < k && j > k {
                    assert(out@[i] == out0[i]);
                    assert(out@[j] == out0[j - 1]);
                }
            }
        }
    }
    proof {
        assert forall|t: u64| #[trigger] tick_group(out@, t) == tick_group(orig, t) by {
            assert(tick_group(records@, t) =~= Seq::<(u64, Cmd)>::empty()) by {
                reveal(Seq::filter);
            }
            assert(tick_group(records@, t) + tick_group(out@, t) =~= tick_group(out@, t));
        }
    }
    out
}

} // verus!
