//! Entity deltas between two states: which entities were added, which
//! changed, and which ids disappeared.
use vstd::prelude::*;
use crate::protocol::{entities_view, Entity, EntityView, State};

verus! {

broadcast use vstd::seq_lib::group_filter_ensures;

pub open spec fn has_id(es: Seq<EntityView>, id: Seq<char>) -> bool {
    exists|i: int| 0 <= i < es.len() && (#[trigger] es[i]).id == id
}

pub open spec fn unique_ids(es: Seq<EntityView>) -> bool {
    forall|i: int, j: int|
        0 <= i < es.len() && 0 <= j < es.len() && i != j ==> (#[trigger] es[i]).id != (#[trigger] es[j]).id
}

/// The first position of an entity with `id`.
pub open spec fn first_index(es: Seq<EntityView>, id: Seq<char>) -> int {
    choose|i: int|
        0 <= i < es.len() && (#[trigger] es[i]).id == id && forall|j: int|
            0 <= j < i ==> (#[trigger] es[j]).id != id
}

/// The first entity with `id`.
pub open spec fn lookup(es: Seq<EntityView>, id: Seq<char>) -> EntityView {
    es[first_index(es, id)]
}

/// An entity list as a map from id to entity.
pub open spec fn entity_map(es: Seq<EntityView>) -> Map<Seq<char>, EntityView> {
    Map::new(|id: Seq<char>| has_id(es, id), |id: Seq<char>| lookup(es, id))
}

/// Entities of `curr` whose id `prev` lacks, in `curr`'s order.
pub open spec fn added(prev: Seq<EntityView>, curr: Seq<EntityView>) -> Seq<EntityView> {
    curr.filter(|e: EntityView| !has_id(prev, e.id))
}

/// Entities of `curr` whose id `prev` has with a different value.
pub open spec fn updated(prev: Seq<EntityView>, curr: Seq<EntityView>) -> Seq<EntityView> {
    curr.filter(|e: EntityView| has_id(prev, e.id) && lookup(prev, e.id) != e)
}

/// Ids of the entities of `prev` whose id `curr` lacks, in `prev`'s order.
pub open spec fn removed(prev: Seq<EntityView>, curr: Seq<EntityView>) -> Seq<Seq<char>> {
    prev.filter(|e: EntityView| !has_id(curr, e.id)).map_values(|e: EntityView| e.id)
}

/// An entity set after a delta: the adds go in, the updates replace, and
/// the removed ids go out.
pub open spec fn apply_delta(
    m: Map<Seq<char>, EntityView>,
    adds: Seq<EntityView>,
    updates: Seq<EntityView>,
    removes: Seq<Seq<char>>,
) -> Map<Seq<char>, EntityView> {
    Map::new(
        |id: Seq<char>|
            (m.dom().contains(id) || has_id(adds, id) || has_id(updates, id)) && !removes.contains(id),
        |id: Seq<char>|
            if has_id(updates, id) {
                lookup(updates, id)
            } else if has_id(adds, id) {
                lookup(adds, id)
            } else {
                m[id]
            },
    )
}

/// `first_index` finds the first entity with the id, at or before any one.
pub proof fn lemma_first_index(es: Seq<EntityView>, id: Seq<char>, i: int)
    requires
        0 <= i < es.len(),
        es[i].id == id,
    ensures
        0 <= first_index(es, id) <= i,
        es[first_index(es, id)].id == id,
        forall|j: int| 0 <= j < first_index(es, id) ==> (#[trigger] es[j]).id != id,
    decreases i,
{
    if exists|j: int| 0 <= j < i && (#[trigger] es[j]).id == id {
        let j = choose|j: int| 0 <= j < i && (#[trigger] es[j]).id == id;
        lemma_first_index(es, id, j);
    } else {
        assert(forall|j: int| 0 <= j < i ==> (#[trigger] es[j]).id != id);
        let f = first_index(es, id);
        if f > i {
            assert(es[i].id != id);
        }
        if f < i {
            assert(es[f].id != id);
        }
    }
}

proof fn lemma_lookup_unique(es: Seq<EntityView>, id: Seq<char>, i: int)
    requires
        unique_ids(es),
        0 <= i < es.len(),
        es[i].id == id,
    ensures
        lookup(es, id) == es[i],
{
    lemma_first_index(es, id, i);
}

/// The entity of `sub` with `id`, when every entity of `sub` is in `es`
/// and `es` has unique ids, is the entity of `es` with that id.
proof fn lemma_lookup_sub(sub: Seq<EntityView>, es: Seq<EntityView>, id: Seq<char>, i: int)
    requires
        unique_ids(es),
        0 <= i < es.len(),
        es[i].id == id,
        has_id(sub, id),
        forall|k: int| 0 <= k < sub.len() ==> es.contains(#[trigger] sub[k]),
    ensures
        lookup(sub, id) == es[i],
{
    let k = choose|k: int| 0 <= k < sub.len() && (#[trigger] sub[k]).id == id;
    lemma_first_index(sub, id, k);
    let f = first_index(sub, id);
    assert(es.contains(sub[f]));
    let j = choose|j: int| 0 <= j < es.len() && es[j] == sub[f];
    assert(es[j].id == id);
}

/// Applying the delta from `prev` to `curr` onto `prev`'s entities gives
/// `curr`'s entities.
pub proof fn lemma_diff_reconstructs(prev: Seq<EntityView>, curr: Seq<EntityView>)
    requires
        unique_ids(prev),
        unique_ids(curr),
    ensures
        apply_delta(entity_map(prev), added(prev, curr), updated(prev, curr), removed(prev, curr))
            == entity_map(curr),
{
    let adds = added(prev, curr);
    let ups = updated(prev, curr);
    let gone = prev.filter(|e: EntityView| !has_id(curr, e.id));
    let rem = removed(prev, curr);
    let m = entity_map(prev);
    let r = apply_delta(m, adds, ups, rem);
    let c = entity_map(curr);
    assert forall|k: int| 0 <= k < adds.len() implies curr.contains(#[trigger] adds[k]) by {
        curr.lemma_filter_contains_rev(|e: EntityView| !has_id(prev, e.id), adds[k]);
    }
    assert forall|k: int| 0 <= k < ups.len() implies curr.contains(#[trigger] ups[k]) by {
        curr.lemma_filter_contains_rev(|e: EntityView| has_id(prev, e.id) && lookup(prev, e.id) != e, ups[k]);
    }
    assert forall|id: Seq<char>| #[trigger] r.dom().contains(id) <==> c.dom().contains(id) by {
        if has_id(curr, id) {
            if rem.contains(id) {
                let k = choose|k: int| 0 <= k < rem.len() && rem[k] == id;
                assert(!has_id(curr, gone[k].id));
            }
            let i = choose|i: int| 0 <= i < curr.len() && (#[trigger] curr[i]).id == id;
            if !has_id(prev, id) {
                assert(adds.contains(curr[i]));
                let k = choose|k: int| 0 <= k < adds.len() && adds[k] == curr[i];
                assert(adds[k].id == id);
            }
        } else {
            if has_id(adds, id) {
                let k = choose|k: int| 0 <= k < adds.len() && (#[trigger] adds[k]).id == id;
                assert(curr.contains(adds[k]));
            }
            if has_id(ups, id) {
                let k = choose|k: int| 0 <= k < ups.len() && (#[trigger] ups[k]).id == id;
                assert(curr.contains(ups[k]));
            }
            if m.dom().contains(id) {
                let j = choose|j: int| 0 <= j < prev.len() && (#[trigger] prev[j]).id == id;
                assert(gone.contains(prev[j]));
                let k = choose|k: int| 0 <= k < gone.len() && gone[k] == prev[j];
                assert(rem[k] == id);
            }
        }
    }
    assert forall|id: Seq<char>| #[trigger] c.dom().contains(id) implies r[id] == c[id] by {
        let i = choose|i: int| 0 <= i < curr.len() && (#[trigger] curr[i]).id == id;
        lemma_lookup_unique(curr, id, i);
        let e = curr[i];
        if has_id(ups, id) {
            lemma_lookup_sub(ups, curr, id, i);
        } else if has_id(adds, id) {
            lemma_lookup_sub(adds, curr, id, i);
        } else {
            if !has_id(prev, id) {
                assert(adds.contains(e));
                let k = choose|k: int| 0 <= k < adds.len() && adds[k] == e;
                assert(adds[k].id == id);
            } else if lookup(prev, id) != e {
                assert(ups.contains(e));
                let k = choose|k: int| 0 <= k < ups.len() && ups[k] == e;
                assert(ups[k].id == id);
            }
        }
    }
    assert(r =~= c);
}

fn find_first(es: &Vec<Entity>, id: &String) -> (r: Option<usize>)
    ensures
        match r {
            Some(k) => k < es@.len() && es@[k as int].id@ == id@ && forall|j: int|
                0 <= j < k ==> (#[trigger] es@[j]).id@ != id@,
            None => forall|j: int| 0 <= j < es@.len() ==> (#[trigger] es@[j]).id@ != id@,
        },
{
    let mut k: usize = 0;
    while k < es.len()
        invariant
            0 <= k <= es@.len(),
            forall|j: int| 0 <= j < k ==> (#[trigger] es@[j]).id@ != id@,
        decreases es.len() - k,
    {
        if es[k].id == *id {
            return Some(k);
        }
        k += 1;
    }
    None
}

/// Looks `id` up in `es`: the first entity with that id, if any.
fn lookup_exec(es: &Vec<Entity>, id: &String) -> (r: Option<usize>)
    ensures
        match r {
            Some(k) => k < es@.len() && has_id(entities_view(es@), id@) && es@[k as int]@ == lookup(
                entities_view(es@),
                id@,
            ),
            None => !has_id(entities_view(es@), id@),
        },
{
    let ghost ev = entities_view(es@);
    let r = find_first(es, id);
    proof {
        match r {
            Some(k) => {
                lemma_first_index(ev, id@, k as int);
                let f = first_index(ev, id@);
                if f < k {
                    assert(es@[f].id@ != id@);
                }
            },
            None => {
                if has_id(ev, id@) {
                    let i = choose|i: int| 0 <= i < ev.len() && (#[trigger] ev[i]).id == id@;
                    assert(es@[i].id@ != id@);
                }
            },
        }
    }
    r
}

pub open spec fn strings_view(v: Seq<String>) -> Seq<Seq<char>> {
    v.map_values(|s: String| s@)
}

/// The delta from `prev` to `curr`: entities added, entities whose value
/// changed (by full structural equality), and ids removed.
pub fn diff_entities(prev: &State, curr: &State) -> (r: (Vec<Entity>, Vec<Entity>, Vec<String>))
    ensures
        entities_view(r.0@) == added(prev@.entities, curr@.entities),
        entities_view(r.1@) == updated(prev@.entities, curr@.entities),
        strings_view(r.2@) == removed(prev@.entities, curr@.entities),
{
    let ghost pv = prev@.entities;
    let ghost cv = curr@.entities;
    let ghost pa = |e: EntityView| !has_id(pv, e.id);
    let ghost pu = |e: EntityView| has_id(pv, e.id) && lookup(pv, e.id) != e;
    let ghost pr = |e: EntityView| !has_id(cv, e.id);
    let mut adds: Vec<Entity> = Vec::new();
    let mut updates: Vec<Entity> = Vec::new();
    let mut i: usize = 0;
    while i < curr.entities.len()
        invariant
            0 <= i <= cv.len(),
            cv == entities_view(curr.entities@),
            pv == entities_view(prev.entities@),
            pa == (|e: EntityView| !has_id(pv, e.id)),
            pu == (|e: EntityView| has_id(pv, e.id) && lookup(pv, e.id) != e),
            entities_view(adds@) == cv.subrange(0, i as int).filter(pa),
            entities_view(updates@) == cv.subrange(0, i as int).filter(pu),
        decreases curr.entities.len() - i,
    {
        let e = &curr.entities[i];
        proof {
            reveal(Seq::filter);
            assert(cv.subrange(0, i + 1).drop_last() =~= cv.subrange(0, i as int));
        }
        match lookup_exec(&prev.entities, &e.id) {
            None => {
                adds.push(e.copied());
            },
            Some(k) => {
                if prev.entities[k] != *e {
                    updates.push(e.copied());
                }
            },
        }
        assert(entities_view(adds@) =~= cv.subrange(0, i + 1).filter(pa));
        assert(entities_view(updates@) =~= cv.subrange(0, i + 1).filter(pu));
        i += 1;
    }
    assert(cv.subrange(0, cv.len() as int) =~= cv);
    let mut removes: Vec<String> = Vec::new();
    let mut i: usize = 0;
    while i < prev.entities.len()
        invariant
            0 <= i <= pv.len(),
            cv == entities_view(curr.entities@),
            pv == entities_view(prev.entities@),
            pr == (|e: EntityView| !has_id(cv, e.id)),
            strings_view(removes@) == pv.subrange(0, i as int).filter(pr).map_values(|e: EntityView| e.id),
        decreases prev.entities.len() - i,
    {
        let e = &prev.entities[i];
        proof {
            reveal(Seq::filter);
            assert(pv.subrange(0, i + 1).drop_last() =~= pv.subrange(0, i as int));
        }
        let ghost f0 = pv.subrange(0, i as int).filter(pr);
        let ghost f1 = pv.subrange(0, i + 1).filter(pr);
        assert(f1 == if pr(pv[i as int]) { f0.push(pv[i as int]) } else { f0 });
        match lookup_exec(&curr.entities, &e.id) {
            None => {
                removes.push(e.id.clone());
                assert(f1 == f0.push(pv[i as int]));
                assert(f1.map_values(|e: EntityView| e.id) =~= f0.map_values(|e: EntityView| e.id).push(e.id@));
            },
            Some(_) => {
                assert(f1 == f0);
            },
        }
        assert(strings_view(removes@) =~= pv.subrange(0, i + 1).filter(pr).map_values(|e: EntityView| e.id));
        i += 1;
    }
    assert(pv.subrange(0, pv.len() as int) =~= pv);
    (adds, updates, removes)
}

} // verus!
