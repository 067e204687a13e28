//! The state fingerprint: a canonical byte form of a `State`, digested with
//! BLAKE3 into a fixed-length hex token.
use vstd::prelude::*;
use crate::sim::Sim;
use crate::protocol::{
    Entity, EntityView, Physics, Pose, Projectile, ProjectileView, State, StateView,
    Vec2, WorldView,
};

verus! {

/// The BLAKE3 digest of `bytes`, in lowercase hex.
pub uninterp spec fn blake3_hex(bytes: Seq<u8>) -> Seq<char>;

/// Relies on `blake3::hash` and `blake3::Hash::to_hex`: the digest is a
/// function of the bytes, and its hex form has 64 characters.
#[verifier::external_body]
fn blake3_hex_string(bytes: &[u8]) -> (r: String)
    ensures
        r@ == blake3_hex(bytes@),
        r@.len() == 64,
{
    blake3::hash(bytes).to_hex().to_string()
}

/// `n` as `k` little-endian bytes.
pub open spec fn le_bytes(n: nat, k: nat) -> Seq<u8>
    decreases k,
{
    if k == 0 {
        Seq::empty()
    } else {
        seq![(n % 256) as u8] + le_bytes(n / 256, (k - 1) as nat)
    }
}

/// A signed integer in offset binary: `x + 2^63` as eight little-endian bytes.
pub open spec fn enc_i64(x: i64) -> Seq<u8> {
    le_bytes((x + 0x8000_0000_0000_0000) as nat, 8)
}

/// A string: its UTF-8 length, then its UTF-8 bytes.
pub open spec fn enc_str(s: Seq<char>) -> Seq<u8> {
    le_bytes(vstd::utf8::encode_utf8(s).len(), 8) + vstd::utf8::encode_utf8(s)
}

pub open spec fn enc_vec2(v: Vec2) -> Seq<u8> {
    enc_i64(v.x) + enc_i64(v.y)
}

pub open spec fn enc_pose(p: Pose) -> Seq<u8> {
    enc_vec2(p.p) + enc_vec2(p.v) + enc_i64(p.theta) + enc_i64(p.omega)
}

pub open spec fn enc_physics(p: Physics) -> Seq<u8> {
    enc_i64(p.mass) + enc_i64(p.radius)
}

pub open spec fn enc_slot(s: (Seq<char>, i32)) -> Seq<u8> {
    enc_str(s.0) + le_bytes((s.1 as u32) as nat, 4)
}

pub open spec fn enc_slot_items(s: Seq<(Seq<char>, i32)>) -> Seq<u8>
    decreases s.len(),
{
    if s.len() == 0 {
        Seq::empty()
    } else {
        enc_slot_items(s.drop_last()) + enc_slot(s.last())
    }
}

pub open spec fn enc_owner(o: Option<Seq<char>>) -> Seq<u8> {
    match o {
        None => seq![0u8],
        Some(s) => seq![1u8] + enc_str(s),
    }
}

#[verifier::opaque]
pub open spec fn enc_entity(e: EntityView) -> Seq<u8> {
    enc_str(e.id) + enc_str(e.archetype) + enc_pose(e.pose) + enc_physics(e.physics) + le_bytes(
        e.inventory.len(),
        8,
    ) + enc_slot_items(e.inventory) + enc_owner(e.owner)
}

pub open spec fn enc_projectile(p: ProjectileView) -> Seq<u8> {
    enc_str(p.id) + enc_pose(p.pose) + le_bytes(p.ttl as nat, 2) + enc_str(p.owner) + enc_str(
        p.weapon,
    )
}

pub open spec fn enc_entity_items(es: Seq<EntityView>) -> Seq<u8>
    decreases es.len(),
{
    if es.len() == 0 {
        Seq::empty()
    } else {
        enc_entity_items(es.drop_last()) + enc_entity(es.last())
    }
}

pub open spec fn enc_projectile_items(ps: Seq<ProjectileView>) -> Seq<u8>
    decreases ps.len(),
{
    if ps.len() == 0 {
        Seq::empty()
    } else {
        enc_projectile_items(ps.drop_last()) + enc_projectile(ps.last())
    }
}

pub open spec fn enc_world(w: WorldView) -> Seq<u8> {
    enc_str(w.seed) + le_bytes(w.time as nat, 8)
}

/// The canonical byte form of a state: every field in declaration order,
/// each list preceded by its length.
pub open spec fn encode_state(s: StateView) -> Seq<u8> {
    enc_world(s.world) + le_bytes(s.entities.len(), 8) + enc_entity_items(s.entities) + le_bytes(
        s.projectiles.len(),
        8,
    ) + enc_projectile_items(s.projectiles)
}

/// The fingerprint of a state.
pub open spec fn fingerprint(s: StateView) -> Seq<char> {
    blake3_hex(encode_state(s))
}

fn push_le(out: &mut Vec<u8>, n: u64, k: u8)
    ensures
        final(out)@ == old(out)@ + le_bytes(n as nat, k as nat),
    decreases k,
{
    if k > 0 {
        out.push((n % 256) as u8);
        push_le(out, n / 256, k - 1);
        assert(final(out)@ =~= old(out)@ + le_bytes(n as nat, k as nat));
    } else {
        assert(final(out)@ =~= old(out)@ + le_bytes(n as nat, k as nat));
    }
}

fn push_i64(out: &mut Vec<u8>, x: i64)
    ensures
        final(out)@ == old(out)@ + enc_i64(x),
{
    let biased: u64 = ((x as i128) + 0x8000_0000_0000_0000i128) as u64;
    push_le(out, biased, 8);
}

fn push_str(out: &mut Vec<u8>, s: &String)
    ensures
        final(out)@ == old(out)@ + enc_str(s@),
{
    let b = s.as_str().as_bytes();
    push_le(out, b.len() as u64, 8);
    let ghost mid = out@;
    let mut i: usize = 0;
    while i < b.len()
        invariant
            0 <= i <= b@.len(),
            b@ == vstd::utf8::encode_utf8(s@),
            out@ == mid + b@.subrange(0, i as int),
        decreases b.len() - i,
    {
        out.push(b[i]);
        assert(out@ =~= mid + b@.subrange(0, i + 1));
        i += 1;
    }
    assert(b@.subrange(0, b@.len() as int) =~= b@);
    assert(out@ =~= old(out)@ + enc_str(s@));
}

fn push_pose(out: &mut Vec<u8>, p: &Pose)
    ensures
        final(out)@ == old(out)@ + enc_pose(*p),
{
    push_i64(out, p.p.x);
    push_i64(out, p.p.y);
    push_i64(out, p.v.x);
    push_i64(out, p.v.y);
    push_i64(out, p.theta);
    push_i64(out, p.omega);
    assert(final(out)@ =~= old(out)@ + enc_pose(*p));
}

fn push_entity(out: &mut Vec<u8>, e: &Entity)
    ensures
        final(out)@ == old(out)@ + enc_entity(e@),
{
    push_str(out, &e.id);
    push_str(out, &e.archetype);
    push_pose(out, &e.pose);
    push_i64(out, e.physics.mass);
    push_i64(out, e.physics.radius);
    let slots = &e.inventory.slots;
    push_le(out, slots.len() as u64, 8);
    let ghost mid = out@;
    let mut i: usize = 0;
    while i < slots.len()
        invariant
            0 <= i <= slots@.len(),
            slots == &e.inventory.slots,
            out@ == mid + enc_slot_items(e.inventory@.subrange(0, i as int)),
        decreases slots.len() - i,
    {
        push_str(out, &slots[i].0);
        push_le(out, slots[i].1 as u32 as u64, 4);
        assert(e.inventory@.subrange(0, i + 1).drop_last() =~= e.inventory@.subrange(0, i as int));
        assert(out@ =~= mid + enc_slot_items(e.inventory@.subrange(0, i + 1)));
        i += 1;
    }
    assert(e.inventory@.subrange(0, slots@.len() as int) =~= e.inventory@);
    match &e.owner {
        None => out.push(0u8),
        Some(o) => {
            out.push(1u8);
            push_str(out, o);
        },
    }
    reveal(enc_entity);
    assert(final(out)@ =~= old(out)@ + enc_entity(e@));
}

fn push_projectile(out: &mut Vec<u8>, p: &Projectile)
    ensures
        final(out)@ == old(out)@ + enc_projectile(p@),
{
    push_str(out, &p.id);
    push_pose(out, &p.pose);
    push_le(out, p.ttl as u64, 2);
    push_str(out, &p.owner);
    push_str(out, &p.weapon);
    assert(final(out)@ =~= old(out)@ + enc_projectile(p@));
}

/// The canonical byte form of `state`.
pub fn encode(state: &State) -> (r: Vec<u8>)
    ensures
        r@ == encode_state(state@),
{
    let mut out: Vec<u8> = Vec::new();
    push_str(&mut out, &state.world.seed);
    push_le(&mut out, state.world.time, 8);
    let es = &state.entities;
    push_le(&mut out, es.len() as u64, 8);
    let ghost mid = out@;
    let mut i: usize = 0;
    while i < es.len()
        invariant
            0 <= i <= es@.len(),
            es == &state.entities,
            out@ == mid + enc_entity_items(state@.entities.subrange(0, i as int)),
        decreases es.len() - i,
    {
        push_entity(&mut out, &es[i]);
        assert(state@.entities.subrange(0, i + 1).drop_last() =~= state@.entities.subrange(0, i as int));
        assert(out@ =~= mid + enc_entity_items(state@.entities.subrange(0, i + 1)));
        i += 1;
    }
    assert(state@.entities.subrange(0, es@.len() as int) =~= state@.entities);
    let ps = &state.projectiles;
    push_le(&mut out, ps.len() as u64, 8);
    let ghost mid2 = out@;
    let mut i: usize = 0;
    while i < ps.len()
        invariant
            0 <= i <= ps@.len(),
            ps == &state.projectiles,
            out@ == mid2 + enc_projectile_items(state@.projectiles.subrange(0, i as int)),
        decreases ps.len() - i,
    {
        push_projectile(&mut out, &ps[i]);
        assert(state@.projectiles.subrange(0, i + 1).drop_last() =~= state@.projectiles.subrange(0, i as int));
        assert(out@ =~= mid2 + enc_projectile_items(state@.projectiles.subrange(0, i + 1)));
        i += 1;
    }
    assert(state@.projectiles.subrange(0, ps@.len() as int) =~= state@.projectiles);
    assert(out@ =~= encode_state(state@));
    out
}

/// The fingerprint of `state`: the BLAKE3 digest of its canonical bytes,
/// as 64 hex characters.
pub fn hash_state(state: &State) -> (r: String)
    ensures
        r@ == fingerprint(state@),
        r@.len() == 64,
{
    let bytes = encode(state);
    blake3_hex_string(bytes.as_slice())
}

/// Equal states have equal fingerprints, however they were built.
pub proof fn lemma_fingerprint_stable(a: StateView, b: StateView)
    requires
        a == b,
    ensures
        fingerprint(a) == fingerprint(b),
{
}

pub open spec fn pow256(k: nat) -> nat
    decreases k,
{
    if k == 0 {
        1
    } else {
        256 * pow256((k - 1) as nat)
    }
}

proof fn lemma_le_bytes_injective(n: nat, m: nat, k: nat)
    requires
        n < pow256(k),
        m < pow256(k),
        le_bytes(n, k) == le_bytes(m, k),
    ensures
        n == m,
    decreases k,
{
    if k > 0 {
        let p = pow256((k - 1) as nat);
        lemma_le_bytes_len(n, k);
        lemma_le_bytes_len(m, k);
        lemma_le_bytes_len(n / 256, (k - 1) as nat);
        lemma_le_bytes_len(m / 256, (k - 1) as nat);
        assert(le_bytes(n, k)[0] == le_bytes(m, k)[0]);
        assert(le_bytes(n / 256, (k - 1) as nat) =~= le_bytes(n, k).subrange(1, k as int));
        assert(le_bytes(m / 256, (k - 1) as nat) =~= le_bytes(m, k).subrange(1, k as int));
        assert(n / 256 < p && m / 256 < p) by (nonlinear_arith)
            requires
                n < 256 * p,
                m < 256 * p,
        ;
        lemma_le_bytes_injective(n / 256, m / 256, (k - 1) as nat);
        assert(n == 256 * (n / 256) + n % 256);
        assert(m == 256 * (m / 256) + m % 256);
        assert(le_bytes(n, k)[0] == (n % 256) as u8);
        assert(le_bytes(m, k)[0] == (m % 256) as u8);
        assert(((n % 256) as u8) as nat == n % 256);
        assert(((m % 256) as u8) as nat == m % 256);
        assert(n % 256 == m % 256);
        assert(n / 256 == m / 256);
    } else {
        assert(pow256(0) == 1);
    }
}

proof fn lemma_le_bytes_len(n: nat, k: nat)
    ensures
        le_bytes(n, k).len() == k,
    decreases k,
{
    if k > 0 {
        lemma_le_bytes_len(n / 256, (k - 1) as nat);
    }
}

/// The canonical form tells apart two states of the same seed at different
/// times: a fingerprint can differ only where the canonical forms differ.
pub proof fn lemma_encoding_sees_time(a: StateView, b: StateView)
    requires
        a.world.seed == b.world.seed,
        a.world.time != b.world.time,
    ensures
        encode_state(a) != encode_state(b),
{
    let off = enc_str(a.world.seed).len() as int;
    lemma_le_bytes_len(a.world.time as nat, 8);
    lemma_le_bytes_len(b.world.time as nat, 8);
    reveal_with_fuel(pow256, 9);
    assert(pow256(8) == 0x1_0000_0000_0000_0000);
    if encode_state(a) == encode_state(b) {
        assert(encode_state(a).subrange(off, off + 8) =~= le_bytes(a.world.time as nat, 8));
        assert(encode_state(b).subrange(off, off + 8) =~= le_bytes(b.world.time as nat, 8));
        lemma_le_bytes_injective(a.world.time as nat, b.world.time as nat, 8);
    }
}

proof fn lemma_items_concat(a: Seq<EntityView>, b: Seq<EntityView>)
    ensures
        enc_entity_items(a + b) == enc_entity_items(a) + enc_entity_items(b),
    decreases b.len(),
{
    if b.len() == 0 {
        assert(a + b =~= a);
        assert(enc_entity_items(a) + enc_entity_items(b) =~= enc_entity_items(a));
    } else {
        lemma_items_concat(a, b.drop_last());
        assert((a + b).drop_last() =~= a + b.drop_last());
        assert(enc_entity_items(a + b) =~= enc_entity_items(a) + enc_entity_items(b));
    }
}

/// `e` moved to x-coordinate `x`.
pub open spec fn with_x(e: EntityView, x: i64) -> EntityView {
    EntityView {
        id: e.id,
        archetype: e.archetype,
        pose: Pose { p: Vec2 { x, y: e.pose.p.y }, v: e.pose.v, theta: e.pose.theta, omega: e.pose.omega },
        physics: e.physics,
        inventory: e.inventory,
        owner: e.owner,
    }
}

proof fn lemma_differ_in_middle(p: Seq<u8>, m1: Seq<u8>, m2: Seq<u8>, q: Seq<u8>)
    requires
        m1.len() == m2.len(),
        m1 != m2,
    ensures
        p + m1 + q != p + m2 + q,
{
    if p + m1 + q == p + m2 + q {
        assert((p + m1 + q).subrange(p.len() as int, (p.len() + m1.len()) as int) =~= m1);
        assert((p + m2 + q).subrange(p.len() as int, (p.len() + m2.len()) as int) =~= m2);
    }
}

proof fn lemma_enc_i64_injective(a: i64, b: i64)
    requires
        a != b,
    ensures
        enc_i64(a) != enc_i64(b),
        enc_i64(a).len() == enc_i64(b).len(),
{
    let na = (a + 0x8000_0000_0000_0000) as nat;
    let nb = (b + 0x8000_0000_0000_0000) as nat;
    lemma_le_bytes_len(na, 8);
    lemma_le_bytes_len(nb, 8);
    reveal_with_fuel(pow256, 9);
    assert(pow256(8) == 0x1_0000_0000_0000_0000);
    if enc_i64(a) == enc_i64(b) {
        lemma_le_bytes_injective(na, nb, 8);
    }
}

pub open spec fn entity_head(e: EntityView) -> Seq<u8> {
    enc_str(e.id) + enc_str(e.archetype)
}

pub open spec fn entity_tail(e: EntityView) -> Seq<u8> {
    enc_i64(e.pose.p.y) + enc_vec2(e.pose.v) + enc_i64(e.pose.theta) + enc_i64(e.pose.omega) + enc_physics(
        e.physics,
    ) + le_bytes(e.inventory.len(), 8) + enc_slot_items(e.inventory) + enc_owner(e.owner)
}

proof fn lemma_entity_split(e: EntityView)
    ensures
        enc_entity(e) == entity_head(e) + enc_i64(e.pose.p.x) + entity_tail(e),
{
    reveal(enc_entity);
    assert(enc_entity(e) =~= entity_head(e) + enc_i64(e.pose.p.x) + entity_tail(e));
}

proof fn lemma_regroup(w: Seq<u8>, ip: Seq<u8>, h: Seq<u8>, x: Seq<u8>, t: Seq<u8>, io: Seq<u8>, r: Seq<u8>)
    ensures
        w + (ip + (h + x + t) + io) + r == (w + ip + h) + x + (t + io + r),
{
    assert(w + (ip + (h + x + t) + io) + r =~= (w + ip + h) + x + (t + io + r));
}

proof fn lemma_state_layout(s: StateView)
    ensures
        encode_state(s) == (enc_world(s.world) + le_bytes(s.entities.len(), 8)) + enc_entity_items(s.entities)
            + (le_bytes(s.projectiles.len(), 8) + enc_projectile_items(s.projectiles)),
{
    let w = enc_world(s.world) + le_bytes(s.entities.len(), 8);
    let i = enc_entity_items(s.entities);
    let l = le_bytes(s.projectiles.len(), 8);
    let p = enc_projectile_items(s.projectiles);
    assert(encode_state(s) == w + i + l + p);
    assert(w + i + l + p =~= w + i + (l + p));
}

proof fn lemma_items_split(es: Seq<EntityView>, i: int)
    requires
        0 <= i < es.len(),
    ensures
        enc_entity_items(es) == enc_entity_items(es.subrange(0, i)) + enc_entity(es[i]) + enc_entity_items(
            es.subrange(i + 1, es.len() as int),
        ),
{
    let e = es[i];
    let pre = es.subrange(0, i);
    let post = es.subrange(i + 1, es.len() as int);
    assert(es =~= pre + seq![e] + post);
    lemma_items_concat(pre + seq![e], post);
    lemma_items_concat(pre, seq![e]);
    let one = seq![e];
    assert(one.drop_last() =~= Seq::<EntityView>::empty());
    assert(one.last() == e);
    assert(enc_entity_items(one) == enc_entity_items(one.drop_last()) + enc_entity(e));
    assert(enc_entity_items(one.drop_last()) == Seq::<u8>::empty());
    assert(enc_entity_items(one) =~= enc_entity(e));
}

proof fn lemma_state_split(s: StateView, i: int)
    requires
        0 <= i < s.entities.len(),
    ensures
        encode_state(s) == (enc_world(s.world) + le_bytes(s.entities.len(), 8) + enc_entity_items(
            s.entities.subrange(0, i),
        ) + entity_head(s.entities[i])) + enc_i64(s.entities[i].pose.p.x) + (entity_tail(s.entities[i])
            + enc_entity_items(s.entities.subrange(i + 1, s.entities.len() as int)) + (le_bytes(
            s.projectiles.len(),
            8,
        ) + enc_projectile_items(s.projectiles))),
{
    let e = s.entities[i];
    lemma_state_layout(s);
    lemma_items_split(s.entities, i);
    lemma_entity_split(e);
    lemma_regroup(
        enc_world(s.world) + le_bytes(s.entities.len(), 8),
        enc_entity_items(s.entities.subrange(0, i)),
        entity_head(e),
        enc_i64(e.pose.p.x),
        entity_tail(e),
        enc_entity_items(s.entities.subrange(i + 1, s.entities.len() as int)),
        le_bytes(s.projectiles.len(), 8) + enc_projectile_items(s.projectiles),
    );
}

/// The canonical form tells apart two states that differ only in the
/// x-coordinate of one entity.
pub proof fn lemma_encoding_sees_position(s: StateView, i: int, x: i64)
    requires
        0 <= i < s.entities.len(),
        s.entities[i].pose.p.x != x,
    ensures
        encode_state(s) != encode_state(
            StateView { world: s.world, entities: s.entities.update(i, with_x(s.entities[i], x)), projectiles: s.projectiles },
        ),
{
    let e = s.entities[i];
    let t = StateView { world: s.world, entities: s.entities.update(i, with_x(e, x)), projectiles: s.projectiles };
    lemma_state_split(s, i);
    lemma_state_split(t, i);
    assert(t.entities.subrange(0, i) =~= s.entities.subrange(0, i));
    assert(t.entities.subrange(i + 1, t.entities.len() as int) =~= s.entities.subrange(i + 1, s.entities.len() as int));
    assert(entity_head(t.entities[i]) == entity_head(e));
    assert(entity_tail(t.entities[i]) == entity_tail(e));
    lemma_enc_i64_injective(e.pose.p.x, x);
    lemma_differ_in_middle(
        enc_world(s.world) + le_bytes(s.entities.len(), 8) + enc_entity_items(s.entities.subrange(0, i)) + entity_head(e),
        enc_i64(e.pose.p.x),
        enc_i64(x),
        entity_tail(e) + enc_entity_items(s.entities.subrange(i + 1, s.entities.len() as int)) + (le_bytes(
            s.projectiles.len(),
            8,
        ) + enc_projectile_items(s.projectiles)),
    );
}

impl Sim {
    /// The fingerprint of the engine's state.
    pub fn state_hash(&self) -> (r: String)
        ensures
            r@ == fingerprint(self@.state),
            r@.len() == 64,
    {
        hash_state(self.state())
    }
}

} // verus!
