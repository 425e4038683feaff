//! The rules that edges between memories obey.

use crate::domain::command::DomainErrorCode;
use crate::domain::id::EntityId;
use crate::domain::relation::{Relation, RelationView};
use crate::text::views;
use vstd::prelude::*;

verus! {

/// Whether an edge may be added.
#[derive(Debug, Clone, Copy, PartialEq, Eq, Structural)]
pub enum GraphValidation {
    Accept,
    Reject(DomainErrorCode),
}

// ---------------------------------------------------------------------------
// Paths of supersession
// ---------------------------------------------------------------------------

/// Whether some supersession edge leads from `a` to `b`.
pub open spec fn edge(rels: Seq<RelationView>, a: EntityId, b: EntityId) -> bool {
    exists|i: int|
        0 <= i < rels.len() && (#[trigger] rels[i]).relation_type.supersession() && rels[i].source
            == a && rels[i].target == b
}

/// Whether each step of `p` follows a supersession edge.
pub open spec fn path(rels: Seq<RelationView>, p: Seq<EntityId>) -> bool {
    p.len() > 0 && forall|k: int| 0 <= k < p.len() - 1 ==> edge(rels, #[trigger] p[k], p[k + 1])
}

/// Whether supersession edges lead from `a` to `b`, in any number of steps.
pub open spec fn reaches(rels: Seq<RelationView>, a: EntityId, b: EntityId) -> bool {
    exists|p: Seq<EntityId>| #[trigger] path(rels, p) && p[0] == a && p.last() == b
}

/// Whether no memory supersedes itself, directly or through others.
pub open spec fn acyclic(rels: Seq<RelationView>) -> bool {
    forall|a: EntityId, b: EntityId| #[trigger] edge(rels, a, b) ==> !reaches(rels, b, a)
}

proof fn lemma_reaches_self(rels: Seq<RelationView>, a: EntityId)
    ensures
        reaches(rels, a, a),
{
    let p = seq![a];
    assert(path(rels, p));
    assert(p[0] == a && p.last() == a);
}

proof fn lemma_reaches_step(rels: Seq<RelationView>, a: EntityId, b: EntityId, c: EntityId)
    requires
        reaches(rels, a, b),
        edge(rels, b, c),
    ensures
        reaches(rels, a, c),
{
    let p = choose|p: Seq<EntityId>| #[trigger] path(rels, p) && p[0] == a && p.last() == b;
    let q = p.push(c);
    assert forall|k: int| 0 <= k < q.len() - 1 implies edge(rels, #[trigger] q[k], q[k + 1]) by {
        if k < p.len() - 1 {
            assert(q[k] == p[k] && q[k + 1] == p[k + 1]);
        } else {
            assert(q[k] == b && q[k + 1] == c);
        }
    }
    assert(path(rels, q));
    assert(q[0] == a && q.last() == c);
}

/// A set of nodes that holds `a` and is closed under edges holds all that `a`
/// reaches.
proof fn lemma_closed_set(rels: Seq<RelationView>, nodes: Seq<EntityId>, p: Seq<EntityId>, k: int)
    requires
        path(rels, p),
        nodes.contains(p[0]),
        forall|i: int|
            0 <= i < rels.len() && nodes.contains((#[trigger] rels[i]).source)
                && rels[i].relation_type.supersession() ==> nodes.contains(rels[i].target),
        0 <= k < p.len(),
    ensures
        nodes.contains(p[k]),
    decreases k,
{
    if k > 0 {
        lemma_closed_set(rels, nodes, p, k - 1);
        assert(edge(rels, p[k - 1], p[k - 1 + 1]));
    }
}

/// The nodes that a search from `start` can meet.
spec fn universe(rels: Seq<RelationView>, start: EntityId) -> Seq<EntityId> {
    rels.map_values(|r: RelationView| r.target).push(start)
}

proof fn lemma_bounded(rels: Seq<RelationView>, start: EntityId, found: Seq<EntityId>)
    requires
        found.no_duplicates(),
        forall|i: int| 0 <= i < found.len() ==> universe(rels, start).contains(#[trigger] found[i]),
    ensures
        found.len() <= rels.len() + 1,
{
    let all = universe(rels, start);
    found.unique_seq_to_set();
    assert(found.to_set().subset_of(all.to_set()));
    vstd::set_lib::lemma_len_subset(found.to_set(), all.to_set());
    all.lemma_cardinality_of_set();
}

fn found_in(found: &Vec<EntityId>, id: EntityId) -> (r: bool)
    ensures
        r == found@.contains(id),
{
    let mut i: usize = 0;
    while i < found.len()
        invariant
            i <= found.len(),
            forall|j: int| 0 <= j < i ==> found@[j] != id,
        decreases found.len() - i,
    {
        if found[i] == id {
            return true;
        }
        i += 1;
    }
    false
}

/// Whether supersession edges lead from the target of the new edge back to its
/// source.
fn forms_supersession_cycle(new: &Relation, existing: &Vec<Relation>) -> (r: bool)
    ensures
        r == reaches(views(existing@), new.target, new.source),
{
    let ghost rels = views(existing@);
    let start = new.target;
    let mut found: Vec<EntityId> = Vec::new();
    found.push(start);
    proof {
        lemma_reaches_self(rels, start);
        assert(found@[0] == start);
        assert(universe(rels, start)[rels.len() as int] == start);
    }
    let mut done: usize = 0;
    while done < found.len()
        invariant
            rels == views(existing@),
            start == new.target,
            done <= found.len(),
            found@.len() > 0 && found@[0] == start,
            found@.no_duplicates(),
            forall|i: int| 0 <= i < found@.len() ==> universe(rels, start).contains(
                #[trigger] found@[i],
            ),
            forall|i: int| 0 <= i < found@.len() ==> reaches(rels, start, #[trigger] found@[i]),
            forall|i: int| 0 <= i < done ==> #[trigger] found@[i] != new.source,
            forall|j: int, i: int|
                0 <= j < done && 0 <= i < rels.len() && (#[trigger] rels[i]).source
                    == #[trigger] found@[j] && rels[i].relation_type.supersession()
                    ==> found@.contains(rels[i].target),
        decreases rels.len() + 1 - done,
    {
        proof {
            lemma_bounded(rels, start, found@);
        }
        let node = found[done];
        if node == new.source {
            return true;
        }
        let mut i: usize = 0;
        while i < existing.len()
            invariant
                rels == views(existing@),
                start == new.target,
                i <= existing.len(),
                done < found@.len(),
                found@[done as int] == node,
                found@.len() > 0 && found@[0] == start,
                found@.no_duplicates(),
                reaches(rels, start, node),
                forall|k: int| 0 <= k < found@.len() ==> universe(rels, start).contains(
                    #[trigger] found@[k],
                ),
                forall|k: int| 0 <= k < found@.len() ==> reaches(rels, start, #[trigger] found@[k]),
                forall|k: int| 0 <= k < done ==> #[trigger] found@[k] != new.source,
                forall|j: int, k: int|
                    0 <= j < done && 0 <= k < rels.len() && (#[trigger] rels[k]).source
                        == #[trigger] found@[j] && rels[k].relation_type.supersession()
                        ==> found@.contains(rels[k].target),
                forall|k: int|
                    0 <= k < i && (#[trigger] rels[k]).source == node
                        && rels[k].relation_type.supersession() ==> found@.contains(rels[k].target),
            decreases existing.len() - i,
        {
            let ghost before = found@;
            proof {
                assert(rels[i as int] == existing@[i as int]@);
            }
            if existing[i].relation_type.is_supersession() && existing[i].source == node
                && !found_in(&found, existing[i].target) {
                found.push(existing[i].target);
                proof {
                    assert(edge(rels, node, rels[i as int].target));
                    lemma_reaches_step(rels, start, node, rels[i as int].target);
                    let all = universe(rels, start);
                    assert(all[i as int] == rels[i as int].target);
                    assert(found@[before.len() as int] == rels[i as int].target);
                    assert forall|x: EntityId| before.contains(x) implies found@.contains(x) by {
                        let w = choose|w: int| 0 <= w < before.len() && before[w] == x;
                        assert(found@[w] == x);
                    }
                    assert(found@.contains(rels[i as int].target));
                }
            }
            i += 1;
        }
        done += 1;
    }
    proof {
        assert forall|i: int|
            0 <= i < rels.len() && found@.contains((#[trigger] rels[i]).source)
                && rels[i].relation_type.supersession() implies found@.contains(rels[i].target) by {
            let j = choose|j: int| 0 <= j < found@.len() && found@[j] == rels[i].source;
            assert(rels[i].source == found@[j]);
        }
        if reaches(rels, start, new.source) {
            let p = choose|p: Seq<EntityId>| #[trigger]
                path(rels, p) && p[0] == start && p.last() == new.source;
            assert(found@.contains(p[0]));
            lemma_closed_set(rels, found@, p, p.len() - 1);
            let j = choose|j: int| 0 <= j < found@.len() && found@[j] == new.source;
            assert(found@[j] != new.source);
        }
    }
    false
}

// ---------------------------------------------------------------------------
// New edges
// ---------------------------------------------------------------------------

/// Whether the edge is there already: same ends, same type.
pub open spec fn has_edge_like(rels: Seq<RelationView>, new: RelationView) -> bool {
    exists|i: int|
        0 <= i < rels.len() && (#[trigger] rels[i]).source == new.source && rels[i].target
            == new.target && rels[i].relation_type == new.relation_type
}

/// What is decided of a new edge, given whether its ends are live memories.
pub open spec fn verdict(
    new: RelationView,
    rels: Seq<RelationView>,
    source_live: bool,
    target_live: bool,
) -> GraphValidation {
    if new.source == new.target && new.relation_type.supersession() {
        GraphValidation::Reject(DomainErrorCode::SelfSupersession)
    } else if !source_live || !target_live {
        GraphValidation::Reject(DomainErrorCode::NotFound)
    } else if has_edge_like(rels, new) {
        GraphValidation::Reject(DomainErrorCode::DuplicateEdge)
    } else if new.relation_type.supersession() && reaches(rels, new.target, new.source) {
        GraphValidation::Reject(DomainErrorCode::SupersessionCycle)
    } else {
        GraphValidation::Accept
    }
}

/// Whether the edge is there already.
pub fn edge_exists(
    existing: &Vec<Relation>,
    source: EntityId,
    target: EntityId,
    relation_type: crate::domain::relation::RelationType,
) -> (r: bool)
    ensures
        r == exists|i: int|
            0 <= i < views(existing@).len() && (#[trigger] views(existing@)[i]).source == source
                && views(existing@)[i].target == target && views(existing@)[i].relation_type
                == relation_type,
{
    let mut i: usize = 0;
    while i < existing.len()
        invariant
            i <= existing.len(),
            forall|j: int|
                0 <= j < i ==> !((#[trigger] views(existing@)[j]).source == source && views(
                    existing@,
                )[j].target == target && views(existing@)[j].relation_type == relation_type),
        decreases existing.len() - i,
    {
        proof {
            assert(views(existing@)[i as int] == existing@[i as int]@);
        }
        if existing[i].source == source && existing[i].target == target && existing[i].relation_type
            == relation_type {
            return true;
        }
        i += 1;
    }
    false
}

/// Decides on a new edge when it is known whether its ends are live.
pub fn validate_between(
    new: &Relation,
    existing: &Vec<Relation>,
    source_live: bool,
    target_live: bool,
) -> (r: GraphValidation)
    ensures
        r == verdict(new@, views(existing@), source_live, target_live),
{
    if new.source == new.target && new.relation_type.is_supersession() {
        return GraphValidation::Reject(DomainErrorCode::SelfSupersession);
    }
    if !source_live || !target_live {
        return GraphValidation::Reject(DomainErrorCode::NotFound);
    }
    if edge_exists(existing, new.source, new.target, new.relation_type) {
        return GraphValidation::Reject(DomainErrorCode::DuplicateEdge);
    }
    if new.relation_type.is_supersession() && forms_supersession_cycle(new, existing) {
        return GraphValidation::Reject(DomainErrorCode::SupersessionCycle);
    }
    GraphValidation::Accept
}

/// Decides on a new edge; `live_memory_ids` tells which memories are live.
pub fn validate_new_edge<F: Fn(EntityId) -> bool>(
    new: &Relation,
    existing: &Vec<Relation>,
    live_memory_ids: F,
) -> (r: GraphValidation)
    requires
        forall|id: EntityId| call_requires(live_memory_ids, (id,)),
    ensures
        exists|s: bool, t: bool| #[trigger]
            call_ensures(live_memory_ids, (new.source,), s) && #[trigger] call_ensures(
                live_memory_ids,
                (new.target,),
                t,
            ) && r == verdict(new@, views(existing@), s, t),
{
    let source_live = live_memory_ids(new.source);
    let target_live = live_memory_ids(new.target);
    validate_between(new, existing, source_live, target_live)
}

/// The same edge seen from its other end.
pub fn reverse_view(r: &Relation) -> (v: Relation)
    ensures
        v@ == r@.reversed(),
{
    r.reverse()
}

/// The part of a path before its first step over the new edge stays within
/// the old ones.
proof fn lemma_old_prefix(
    rels: Seq<RelationView>,
    new: RelationView,
    p: Seq<EntityId>,
    k: int,
)
    requires
        path(rels.push(new), p),
        0 <= k < p.len(),
        !reaches(rels, p[0], new.source),
    ensures
        reaches(rels, p[0], p[k]),
    decreases k,
{
    if k == 0 {
        lemma_reaches_self(rels, p[0]);
    } else {
        lemma_old_prefix(rels, new, p, k - 1);
        let all = rels.push(new);
        assert(edge(all, p[k - 1], p[k - 1 + 1]));
        let i = choose|i: int|
            0 <= i < all.len() && (#[trigger] all[i]).relation_type.supersession() && all[i].source
                == p[k - 1] && all[i].target == p[k];
        if i == rels.len() {
            assert(p[k - 1] == new.source);
        } else {
            assert(rels[i] == all[i]);
            assert(edge(rels, p[k - 1], p[k]));
            lemma_reaches_step(rels, p[0], p[k - 1], p[k]);
        }
    }
}

proof fn lemma_reaches_prepend(rels: Seq<RelationView>, a: EntityId, b: EntityId, c: EntityId)
    requires
        edge(rels, a, b),
        reaches(rels, b, c),
    ensures
        reaches(rels, a, c),
{
    let p = choose|p: Seq<EntityId>| #[trigger] path(rels, p) && p[0] == b && p.last() == c;
    let q = seq![a] + p;
    assert forall|k: int| 0 <= k < q.len() - 1 implies edge(rels, #[trigger] q[k], q[k + 1]) by {
        if k == 0 {
            assert(q[0] == a && q[1] == b);
        } else {
            assert(q[k] == p[k - 1] && q[k + 1] == p[k - 1 + 1]);
        }
    }
    assert(path(rels, q));
    assert(q[0] == a && q.last() == c);
}

/// The part of a path after its last step over the new edge stays within the
/// old ones.
proof fn lemma_old_suffix(
    rels: Seq<RelationView>,
    new: RelationView,
    p: Seq<EntityId>,
    k: int,
)
    requires
        path(rels.push(new), p),
        0 <= k < p.len(),
    ensures
        reaches(rels, p[k], p.last()) || reaches(rels, new.target, p.last()),
    decreases p.len() - k,
{
    if k == p.len() - 1 {
        lemma_reaches_self(rels, p.last());
    } else {
        lemma_old_suffix(rels, new, p, k + 1);
        let all = rels.push(new);
        assert(edge(all, p[k], p[k + 1]));
        let i = choose|i: int|
            0 <= i < all.len() && (#[trigger] all[i]).relation_type.supersession() && all[i].source
                == p[k] && all[i].target == p[k + 1];
        if i < rels.len() {
            assert(rels[i] == all[i]);
            assert(edge(rels, p[k], p[k + 1]));
            if reaches(rels, p[k + 1], p.last()) {
                lemma_reaches_prepend(rels, p[k], p[k + 1], p.last());
            }
        }
    }
}

proof fn lemma_reaches_join(rels: Seq<RelationView>, a: EntityId, p: Seq<EntityId>, k: int)
    requires
        path(rels, p),
        0 <= k < p.len(),
        reaches(rels, a, p[0]),
    ensures
        reaches(rels, a, p[k]),
    decreases k,
{
    if k > 0 {
        lemma_reaches_join(rels, a, p, k - 1);
        assert(edge(rels, p[k - 1], p[k - 1 + 1]));
        lemma_reaches_step(rels, a, p[k - 1], p[k]);
    }
}

/// Reaching is transitive.
pub proof fn lemma_reaches_transitive(
    rels: Seq<RelationView>,
    a: EntityId,
    b: EntityId,
    c: EntityId,
)
    requires
        reaches(rels, a, b),
        reaches(rels, b, c),
    ensures
        reaches(rels, a, c),
{
    let p = choose|p: Seq<EntityId>| #[trigger] path(rels, p) && p[0] == b && p.last() == c;
    lemma_reaches_join(rels, a, p, p.len() - 1);
}

/// An edge that is accepted leaves supersession without cycles: what held
/// before holds after.
pub proof fn law_accepted_edges_keep_acyclic(
    new: RelationView,
    rels: Seq<RelationView>,
    source_live: bool,
    target_live: bool,
)
    requires
        acyclic(rels),
        verdict(new, rels, source_live, target_live) == GraphValidation::Accept,
    ensures
        acyclic(rels.push(new)),
{
    let all = rels.push(new);
    assert forall|a: EntityId, b: EntityId| #[trigger] edge(all, a, b) implies !reaches(
        all,
        b,
        a,
    ) by {
        if reaches(all, b, a) {
            let p = choose|p: Seq<EntityId>| #[trigger] path(all, p) && p[0] == b && p.last() == a;
            let i = choose|i: int|
                0 <= i < all.len() && (#[trigger] all[i]).relation_type.supersession()
                    && all[i].source == a && all[i].target == b;
            lemma_old_suffix(rels, new, p, 0);
            if i < rels.len() {
                assert(rels[i] == all[i]);
                assert(edge(rels, a, b));
                assert(!reaches(rels, b, a));
                // The path must use the new edge, so `b` reaches its source and
                // its target reaches `a`.
                if !reaches(rels, b, new.source) {
                    lemma_old_prefix(rels, new, p, p.len() - 1);
                }
                assert(reaches(rels, new.target, a));
                if !new.relation_type.supersession() {
                    lemma_only_old(rels, new, p, p.len() - 1);
                }
                lemma_reaches_step(rels, new.target, a, b);
                lemma_reaches_transitive(rels, new.target, b, new.source);
            } else {
                assert(a == new.source && b == new.target);
                assert(reaches(rels, new.target, new.source));
            }
        }
    }
}

proof fn lemma_only_old(
    rels: Seq<RelationView>,
    new: RelationView,
    p: Seq<EntityId>,
    k: int,
)
    requires
        path(rels.push(new), p),
        !new.relation_type.supersession(),
        0 <= k < p.len(),
    ensures
        reaches(rels, p[0], p[k]),
    decreases k,
{
    if k == 0 {
        lemma_reaches_self(rels, p[0]);
    } else {
        lemma_only_old(rels, new, p, k - 1);
        let all = rels.push(new);
        assert(edge(all, p[k - 1], p[k - 1 + 1]));
        let i = choose|i: int|
            0 <= i < all.len() && (#[trigger] all[i]).relation_type.supersession() && all[i].source
                == p[k - 1] && all[i].target == p[k];
        assert(rels[i] == all[i]);
        assert(edge(rels, p[k - 1], p[k]));
        lemma_reaches_step(rels, p[0], p[k - 1], p[k]);
    }
}

/// Removing edges makes no cycle.
pub proof fn law_fewer_edges_keep_acyclic(rels: Seq<RelationView>, fewer: Seq<RelationView>)
    requires
        acyclic(rels),
        forall|i: int| 0 <= i < fewer.len() ==> rels.contains(#[trigger] fewer[i]),
    ensures
        acyclic(fewer),
{
    assert forall|a: EntityId, b: EntityId| #[trigger] edge(fewer, a, b) implies edge(
        rels,
        a,
        b,
    ) by {
        let i = choose|i: int|
            0 <= i < fewer.len() && (#[trigger] fewer[i]).relation_type.supersession()
                && fewer[i].source == a && fewer[i].target == b;
        assert(rels.contains(fewer[i]));
        let j = choose|j: int| 0 <= j < rels.len() && rels[j] == fewer[i];
        assert(rels[j].source == a);
    }
    assert forall|a: EntityId, b: EntityId| #[trigger] edge(fewer, a, b) implies !reaches(
        fewer,
        b,
        a,
    ) by {
        if reaches(fewer, b, a) {
            let p = choose|p: Seq<EntityId>| #[trigger]
                path(fewer, p) && p[0] == b && p.last() == a;
            assert forall|k: int| 0 <= k < p.len() - 1 implies edge(
                rels,
                #[trigger] p[k],
                p[k + 1],
            ) by {
                assert(edge(fewer, p[k], p[k + 1]));
            }
            assert(path(rels, p));
            assert(edge(rels, a, b));
        }
    }
}

} // verus!
