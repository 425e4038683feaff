//! The neighbourhood of a memory: what is joined to it by one edge or by two.

use crate::canonical::repository::{by_id, edges_by_id, found, CanonicalRepository};
use crate::domain::id::EntityId;
use crate::domain::memory::{Memory, MemoryView};
use crate::domain::relation::{Relation, RelationView};
use crate::domain::state::{has_memory, memory_of, StateView};
use crate::lists::rank;
use crate::rank::{holds_both, lemma_ranked};
use crate::text::views;
use vstd::prelude::*;

verus! {

/// The other end of an edge.
pub open spec fn other_end(r: RelationView, id: EntityId) -> Option<EntityId> {
    if r.source == id {
        Some(r.target)
    } else if r.target == id {
        Some(r.source)
    } else {
        None
    }
}

/// The neighbours of a memory over the first `n` edges that were not seen, in
/// the order in which they are reached.
pub open spec fn unseen(rs: Seq<RelationView>, n: int, id: EntityId, seen: Seq<EntityId>) -> Seq<
    EntityId,
>
    decreases n,
{
    if n <= 0 {
        Seq::empty()
    } else {
        let rest = unseen(rs, n - 1, id, seen);
        match other_end(rs[n - 1], id) {
            Some(x) => if seen.contains(x) || rest.contains(x) {
                rest
            } else {
                rest.push(x)
            },
            None => rest,
        }
    }
}

/// The identifiers that the first `k` of the near ones lead to and that were
/// not seen, in the order in which they are reached.
pub open spec fn further(
    rs: Seq<RelationView>,
    near: Seq<EntityId>,
    seen: Seq<EntityId>,
    k: int,
) -> Seq<EntityId>
    decreases k,
{
    if k <= 0 {
        Seq::empty()
    } else {
        let rest = further(rs, near, seen, k - 1);
        rest + unseen(rs, rs.len() as int, near[k - 1], seen + rest)
    }
}

/// The identifiers at depth one.
pub open spec fn near_ids(s: StateView, root: EntityId) -> Seq<EntityId> {
    let rs = edges_by_id(s.relations);
    unseen(rs, rs.len() as int, root, seq![root])
}

/// The identifiers at depth two.
pub open spec fn far_ids(s: StateView, root: EntityId) -> Seq<EntityId> {
    let near = near_ids(s, root);
    further(edges_by_id(s.relations), near, seq![root] + near, near.len() as int)
}

/// The memories around one, by depth and then by identifier.
pub open spec fn around(s: StateView, root: EntityId) -> Seq<(MemoryView, u32)> {
    by_id(found(s.memories, near_ids(s, root))).map_values(|m: MemoryView| (m, 1u32)) + by_id(
        found(s.memories, far_ids(s, root)),
    ).map_values(|m: MemoryView| (m, 2u32))
}

fn has_id(ids: &Vec<EntityId>, id: EntityId) -> (r: bool)
    ensures
        r == ids@.contains(id),
{
    let mut i: usize = 0;
    while i < ids.len()
        invariant
            i <= ids@.len(),
            forall|j: int| 0 <= j < i ==> ids@[j] != id,
        decreases ids@.len() - i,
    {
        if ids[i] == id {
            return true;
        }
        i += 1;
    }
    false
}

fn unseen_ids(relations: &Vec<Relation>, id: EntityId, seen: &Vec<EntityId>) -> (r: Vec<EntityId>)
    ensures
        r@ == unseen(views(relations@), relations@.len() as int, id, seen@),
{
    let ghost rs = views(relations@);
    let mut out: Vec<EntityId> = Vec::new();
    let mut i: usize = 0;
    proof {
        assert(out@ =~= Seq::empty());
    }
    while i < relations.len()
        invariant
            i <= relations@.len(),
            rs == views(relations@),
            out@ == unseen(rs, i as int, id, seen@),
        decreases relations@.len() - i,
    {
        let e = &relations[i];
        proof {
            assert(rs[i as int] == relations@[i as int]@);
        }
        let next = if e.source == id {
            Some(e.target)
        } else if e.target == id {
            Some(e.source)
        } else {
            None
        };
        if let Some(x) = next {
            if !has_id(seen, x) && !has_id(&out, x) {
                out.push(x);
            }
        }
        i += 1;
    }
    out
}

/// A memory around another.
#[derive(Debug)]
pub struct Neighbour {
    pub memory: Memory,
    pub depth: u32,
}

impl View for Neighbour {
    type V = (MemoryView, u32);

    open spec fn view(&self) -> (MemoryView, u32) {
        (self.memory@, self.depth)
    }
}

fn sort_by_id(ms: &Vec<Memory>) -> (r: Vec<Memory>)
    ensures
        views(r@) == by_id(views(ms@)),
{
    rank(
        ms,
        |m: &Memory| -> (k: (i128, u128))
            ensures
                k.0 == 0 && k.1 == m@.id.0
            { (0, m.id.0) },
        Ghost(|m: MemoryView| (0int, m.id.0 as int)),
    )
}

/// The memories around one, to depth two.
pub fn expand_graph(repo: &CanonicalRepository, root: EntityId) -> (r: Vec<Neighbour>)
    requires
        repo@.wf(),
    ensures
        views(r@) == around(repo@, root),
        forall|j: int| 0 <= j < r@.len() ==> (#[trigger] r@[j]).depth > 0,
{
    let relations = repo.all_relations();
    let ghost rs = views(relations@);
    proof {
        assert(rs.len() == relations@.len());
    }
    let mut seen: Vec<EntityId> = Vec::new();
    seen.push(root);
    proof {
        assert(seen@ =~= seq![root]);
    }
    let near = unseen_ids(&relations, root, &seen);
    let mut i: usize = 0;
    proof {
        assert(seen@ =~= seq![root] + near@.take(0));
    }
    while i < near.len()
        invariant
            i <= near@.len(),
            seen@ == seq![root] + near@.take(i as int),
        decreases near@.len() - i,
    {
        seen.push(near[i]);
        proof {
            assert(seen@ =~= seq![root] + near@.take(i + 1));
        }
        i += 1;
    }
    proof {
        assert(near@.take(near@.len() as int) =~= near@);
    }
    let ghost reached = seen@;
    let mut far: Vec<EntityId> = Vec::new();
    let mut k: usize = 0;
    proof {
        assert(far@ =~= Seq::empty());
        assert(seen@ =~= reached + far@);
    }
    while k < near.len()
        invariant
            k <= near@.len(),
            rs == views(relations@),
            rs.len() == relations@.len(),
            far@ == further(rs, near@, reached, k as int),
            seen@ == reached + far@,
        decreases near@.len() - k,
    {
        let step = unseen_ids(&relations, near[k], &seen);
        let ghost far_before = far@;
        let mut n: usize = 0;
        proof {
            assert(far@ =~= far_before + step@.take(0));
        }
        while n < step.len()
            invariant
                n <= step@.len(),
                far@ == far_before + step@.take(n as int),
                seen@ == reached + far@,
            decreases step@.len() - n,
        {
            far.push(step[n]);
            seen.push(step[n]);
            proof {
                assert(far@ =~= far_before + step@.take(n + 1));
                assert(seen@ =~= reached + far@);
            }
            n += 1;
        }
        proof {
            assert(step@.take(step@.len() as int) =~= step@);
        }
        k += 1;
    }
    let near_ms = sort_by_id(&repo.get_memories(&near));
    let far_ms = sort_by_id(&repo.get_memories(&far));
    let ghost a = views(near_ms@).map_values(|m: MemoryView| (m, 1u32));
    let ghost b = views(far_ms@).map_values(|m: MemoryView| (m, 2u32));
    let mut out: Vec<Neighbour> = Vec::new();
    let mut j: usize = 0;
    while j < near_ms.len()
        invariant
            j <= near_ms@.len(),
            out@.len() == j,
            forall|x: int|
                0 <= x < j ==> (#[trigger] out@[x])@ == (near_ms@[x]@, 1u32) && out@[x].depth > 0,
        decreases near_ms@.len() - j,
    {
        out.push(Neighbour { memory: near_ms[j].clone(), depth: 1 });
        j += 1;
    }
    proof {
        assert(views(out@) =~= a);
    }
    let ghost start = out@;
    let mut n: usize = 0;
    while n < far_ms.len()
        invariant
            n <= far_ms@.len(),
            out@.len() == start.len() + n,
            forall|x: int|
                0 <= x < start.len() ==> (#[trigger] out@[x]) == start[x] && out@[x].depth > 0,
            forall|x: int|
                start.len() <= x < out@.len() ==> (#[trigger] out@[x])@ == (
                    far_ms@[x - start.len()]@,
                    2u32,
                ) && out@[x].depth > 0,
        decreases far_ms@.len() - n,
    {
        out.push(Neighbour { memory: far_ms[n].clone(), depth: 2 });
        n += 1;
    }
    proof {
        assert(views(out@) =~= a + b);
    }
    out
}

// ---------------------------------------------------------------------------
// What is around a memory
// ---------------------------------------------------------------------------

/// Whether an edge joins two memories, in either direction.
pub open spec fn adjacent(rs: Seq<RelationView>, a: EntityId, b: EntityId) -> bool {
    exists|i: int| 0 <= i < rs.len() && #[trigger] other_end(rs[i], a) == Some(b)
}

/// Whether a memory is one edge away from another.
pub open spec fn at_one(s: StateView, root: EntityId, id: EntityId) -> bool {
    id != root && adjacent(s.relations, root, id)
}

/// Whether a memory is two edges away from another, and no less.
pub open spec fn at_two(s: StateView, root: EntityId, id: EntityId) -> bool {
    &&& id != root
    &&& !adjacent(s.relations, root, id)
    &&& exists|mid: EntityId|
        #[trigger] at_one(s, root, mid) && adjacent(s.relations, mid, id)
}

proof fn lemma_unseen(rs: Seq<RelationView>, n: int, id: EntityId, seen: Seq<EntityId>)
    requires
        0 <= n <= rs.len(),
    ensures
        unseen(rs, n, id, seen).no_duplicates(),
        forall|x: EntityId| #[trigger]
            unseen(rs, n, id, seen).contains(x) <==> !seen.contains(x) && exists|i: int|
                0 <= i < n && #[trigger] other_end(rs[i], id) == Some(x),
    decreases n,
{
    if n > 0 {
        lemma_unseen(rs, n - 1, id, seen);
        let rest = unseen(rs, n - 1, id, seen);
        let all = unseen(rs, n, id, seen);
        let end = other_end(rs[n - 1], id);
        assert forall|x: EntityId| #[trigger] all.contains(x) <==> !seen.contains(x) && exists|i: int|
            0 <= i < n && #[trigger] other_end(rs[i], id) == Some(x) by {
            if rest.contains(x) {
                if all != rest {
                    assert(all[rest.index_of(x)] == x);
                }
            } else if end == Some(x) && !seen.contains(x) {
                assert(all[rest.len() as int] == x);
            }
            if all.contains(x) && !rest.contains(x) {
                let k = all.index_of(x);
                if k < rest.len() {
                    assert(rest[k] == x);
                }
                assert(other_end(rs[n - 1], id) == Some(x));
            }
        }
    }
}

proof fn lemma_further(rs: Seq<RelationView>, near: Seq<EntityId>, seen: Seq<EntityId>, k: int)
    requires
        0 <= k <= near.len(),
    ensures
        further(rs, near, seen, k).no_duplicates(),
        forall|x: EntityId| #[trigger]
            further(rs, near, seen, k).contains(x) <==> !seen.contains(x) && exists|c: int|
                0 <= c < k && adjacent(rs, #[trigger] near[c], x),
    decreases k,
{
    if k > 0 {
        lemma_further(rs, near, seen, k - 1);
        let rest = further(rs, near, seen, k - 1);
        let step = unseen(rs, rs.len() as int, near[k - 1], seen + rest);
        let all = rest + step;
        lemma_unseen(rs, rs.len() as int, near[k - 1], seen + rest);
        assert forall|x: EntityId| #[trigger]
            (seen + rest).contains(x) <==> seen.contains(x) || rest.contains(x) by {
            if seen.contains(x) {
                assert((seen + rest)[seen.index_of(x)] == x);
            }
            if rest.contains(x) {
                assert((seen + rest)[seen.len() + rest.index_of(x)] == x);
            }
        }
        assert forall|x: EntityId| #[trigger]
            all.contains(x) <==> rest.contains(x) || step.contains(x) by {
            if rest.contains(x) {
                assert(all[rest.index_of(x)] == x);
            }
            if step.contains(x) {
                assert(all[rest.len() + step.index_of(x)] == x);
            }
        }
        assert forall|x: EntityId| #[trigger] all.contains(x) <==> !seen.contains(x) && exists|c: int|
            0 <= c < k && adjacent(rs, #[trigger] near[c], x) by {
            if step.contains(x) {
                assert(adjacent(rs, near[k - 1], x));
            }
        }
        assert forall|i: int, j: int| 0 <= i < j < all.len() implies all[i] != all[j] by {
            if i < rest.len() && j >= rest.len() {
                assert(step.contains(step[j - rest.len()]));
                assert(rest.contains(rest[i]));
            }
        }
    }
}

proof fn lemma_adjacent_by_id(s: StateView, a: EntityId, b: EntityId)
    ensures
        adjacent(edges_by_id(s.relations), a, b) == adjacent(s.relations, a, b),
{
    let rs = s.relations;
    let es = edges_by_id(rs);
    lemma_ranked(rs, |r: RelationView| (0int, r.id.0 as int));
    if adjacent(es, a, b) {
        let i = choose|i: int| 0 <= i < es.len() && #[trigger] other_end(es[i], a) == Some(b);
        assert(es.contains(es[i]));
        let j = rs.index_of(es[i]);
        assert(other_end(rs[j], a) == Some(b));
    }
    if adjacent(rs, a, b) {
        let i = choose|i: int| 0 <= i < rs.len() && #[trigger] other_end(rs[i], a) == Some(b);
        assert(es.contains(rs[i]));
        let j = es.index_of(rs[i]);
        assert(other_end(es[j], a) == Some(b));
    }
}

proof fn lemma_found(ms: Seq<MemoryView>, ids: Seq<EntityId>)
    requires
        ids.no_duplicates(),
    ensures
        forall|x: EntityId| #[trigger]
            ids.contains(x) && has_memory(ms, x) ==> found(ms, ids).contains(memory_of(ms, x)),
        forall|i: int|
            0 <= i < found(ms, ids).len() ==> {
                let m = #[trigger] found(ms, ids)[i];
                ids.contains(m.id) && has_memory(ms, m.id) && m == memory_of(ms, m.id)
            },
        forall|i: int, j: int|
            0 <= i < j < found(ms, ids).len() ==> (#[trigger] found(ms, ids)[i]).id != (
            #[trigger] found(ms, ids)[j]).id,
    decreases ids.len(),
{
    if ids.len() > 0 {
        let rest = ids.drop_last();
        lemma_found(ms, rest);
        let r = found(ms, rest);
        let all = found(ms, ids);
        assert forall|x: EntityId| #[trigger] ids.contains(x) && has_memory(ms, x) implies all.contains(
            memory_of(ms, x),
        ) by {
            if x == ids.last() {
                assert(all[r.len() as int] == memory_of(ms, x));
            } else {
                assert(rest[ids.index_of(x)] == x);
                assert(rest.contains(x));
                assert(all[r.index_of(memory_of(ms, x))] == memory_of(ms, x));
            }
        }
        assert forall|i: int| 0 <= i < all.len() implies {
            let m = #[trigger] all[i];
            ids.contains(m.id) && has_memory(ms, m.id) && m == memory_of(ms, m.id)
        } by {
            if i < r.len() {
                assert(all[i] == r[i]);
                assert(ids[rest.index_of(r[i].id)] == r[i].id);
            } else {
                assert(all[i].id == ids.last());
                assert(ids[ids.len() - 1] == all[i].id);
            }
        }
        assert forall|i: int, j: int| 0 <= i < j < all.len() implies (#[trigger] all[i]).id != (
        #[trigger] all[j]).id by {
            assert(all[i] == r[i]);
            if j < r.len() {
                assert(all[j] == r[j]);
            } else {
                assert(all[j].id == ids.last());
                assert(rest.contains(r[i].id));
                assert(ids[rest.index_of(r[i].id)] == r[i].id);
            }
        }
    }
}

/// What was found, in the order of the identifiers.
proof fn lemma_found_by_id(ms: Seq<MemoryView>, ids: Seq<EntityId>)
    requires
        ids.no_duplicates(),
    ensures
        forall|x: EntityId| #[trigger]
            ids.contains(x) && has_memory(ms, x) ==> by_id(found(ms, ids)).contains(
                memory_of(ms, x),
            ),
        forall|i: int|
            0 <= i < by_id(found(ms, ids)).len() ==> {
                let m = #[trigger] by_id(found(ms, ids))[i];
                ids.contains(m.id) && has_memory(ms, m.id) && m == memory_of(ms, m.id)
            },
        forall|i: int, j: int|
            0 <= i < j < by_id(found(ms, ids)).len() ==> (#[trigger] by_id(found(ms, ids))[i]).id
                != (#[trigger] by_id(found(ms, ids))[j]).id,
{
    let f = found(ms, ids);
    let r = by_id(f);
    lemma_found(ms, ids);
    lemma_ranked(f, |m: MemoryView| (0int, m.id.0 as int));
    assert forall|i: int| 0 <= i < r.len() implies {
        let m = #[trigger] r[i];
        ids.contains(m.id) && has_memory(ms, m.id) && m == memory_of(ms, m.id)
    } by {
        assert(r.contains(r[i]));
        assert(f[f.index_of(r[i])] == r[i]);
    }
    assert forall|i: int, j: int| 0 <= i < j < r.len() implies (#[trigger] r[i]).id != (
    #[trigger] r[j]).id by {
        assert(holds_both(f, r[i], r[j]));
        let (x, y) = choose|x: int, y: int|
            0 <= x < f.len() && 0 <= y < f.len() && x != y && r[i] == #[trigger] f[x] && r[j]
                == #[trigger] f[y];
        if x < y {
            assert(f[x].id != f[y].id);
        } else {
            assert(f[y].id != f[x].id);
        }
    }
}

proof fn lemma_depths(s: StateView, root: EntityId)
    ensures
        near_ids(s, root).no_duplicates(),
        far_ids(s, root).no_duplicates(),
        forall|x: EntityId| #[trigger] near_ids(s, root).contains(x) <==> at_one(s, root, x),
        forall|x: EntityId| #[trigger] far_ids(s, root).contains(x) <==> at_two(s, root, x),
{
    let rs = edges_by_id(s.relations);
    let near = near_ids(s, root);
    let seen = seq![root] + near;
    lemma_unseen(rs, rs.len() as int, root, seq![root]);
    lemma_further(rs, near, seen, near.len() as int);
    assert forall|x: EntityId| #[trigger] near.contains(x) <==> at_one(s, root, x) by {
        lemma_adjacent_by_id(s, root, x);
        assert(seq![root].contains(x) <==> x == root) by {
            assert(seq![root][0] == root);
        }
    }
    assert forall|x: EntityId| #[trigger] far_ids(s, root).contains(x) <==> at_two(s, root, x) by {
        assert(seen.contains(x) <==> x == root || near.contains(x)) by {
            assert(seen[0] == root);
            if near.contains(x) {
                assert(seen[1 + near.index_of(x)] == x);
            }
            if seen.contains(x) && x != root {
                assert(near[seen.index_of(x) - 1] == x);
            }
        }
        assert(near.contains(x) <==> at_one(s, root, x));
        if exists|c: int| 0 <= c < near.len() && adjacent(rs, #[trigger] near[c], x) {
            let c = choose|c: int| 0 <= c < near.len() && adjacent(rs, #[trigger] near[c], x);
            assert(near.contains(near[c]));
            lemma_adjacent_by_id(s, near[c], x);
            assert(at_one(s, root, near[c]));
        }
        if exists|mid: EntityId| #[trigger] at_one(s, root, mid) && adjacent(s.relations, mid, x) {
            let mid = choose|mid: EntityId| #[trigger]
                at_one(s, root, mid) && adjacent(s.relations, mid, x);
            assert(near.contains(mid));
            lemma_adjacent_by_id(s, mid, x);
            assert(adjacent(rs, near[near.index_of(mid)], x));
        }
    }
}

/// The neighbourhood of a memory is whole: every memory of the store that is one
/// or two edges away from it is there, with that distance, and nothing else is.
/// None is there twice, and the nearer come first.
pub proof fn law_neighbourhood_is_whole(s: StateView, root: EntityId)
    ensures
        forall|id: EntityId|
            #![trigger at_one(s, root, id)]
            has_memory(s.memories, id) && at_one(s, root, id) ==> around(s, root).contains(
                (memory_of(s.memories, id), 1u32),
            ),
        forall|id: EntityId|
            #![trigger at_two(s, root, id)]
            has_memory(s.memories, id) && at_two(s, root, id) ==> around(s, root).contains(
                (memory_of(s.memories, id), 2u32),
            ),
        forall|i: int|
            0 <= i < around(s, root).len() ==> {
                let (m, depth) = #[trigger] around(s, root)[i];
                &&& has_memory(s.memories, m.id)
                &&& m == memory_of(s.memories, m.id)
                &&& (depth == 1 && at_one(s, root, m.id)) || (depth == 2 && at_two(
                    s,
                    root,
                    m.id,
                ))
            },
        forall|i: int, j: int|
            0 <= i < j < around(s, root).len() ==> (#[trigger] around(s, root)[i]).0.id != (
            #[trigger] around(s, root)[j]).0.id && around(s, root)[i].1 <= around(s, root)[j].1,
{
    let ms = s.memories;
    let near = by_id(found(ms, near_ids(s, root)));
    let far = by_id(found(ms, far_ids(s, root)));
    let all = around(s, root);
    lemma_depths(s, root);
    lemma_found_by_id(ms, near_ids(s, root));
    lemma_found_by_id(ms, far_ids(s, root));
    assert forall|i: int| 0 <= i < all.len() implies {
        let (m, depth) = #[trigger] all[i];
        &&& has_memory(ms, m.id)
        &&& m == memory_of(ms, m.id)
        &&& (depth == 1 && at_one(s, root, m.id)) || (depth == 2 && at_two(s, root, m.id))
    } by {
        if i < near.len() {
            assert(all[i] == (near[i], 1u32));
        } else {
            assert(all[i] == (far[i - near.len()], 2u32));
        }
    }
    assert forall|i: int, j: int| 0 <= i < j < all.len() implies (#[trigger] all[i]).0.id != (
    #[trigger] all[j]).0.id && all[i].1 <= all[j].1 by {
        if j < near.len() {
            assert(near[i].id != near[j].id);
        } else if i >= near.len() {
            assert(far[i - near.len()].id != far[j - near.len()].id);
        } else {
            assert(all[i] == (near[i], 1u32) && all[j] == (far[j - near.len()], 2u32));
        }
    }
    assert forall|id: EntityId| #![trigger at_one(s, root, id)]
        has_memory(ms, id) && at_one(s, root, id) implies all.contains(
        (memory_of(ms, id), 1u32),
    ) by {
        assert(near_ids(s, root).contains(id));
        assert(all[near.index_of(memory_of(ms, id))] == (memory_of(ms, id), 1u32));
    }
    assert forall|id: EntityId| #![trigger at_two(s, root, id)]
        has_memory(ms, id) && at_two(s, root, id) implies all.contains(
        (memory_of(ms, id), 2u32),
    ) by {
        assert(far_ids(s, root).contains(id));
        assert(all[near.len() + far.index_of(memory_of(ms, id))] == (memory_of(ms, id), 2u32));
    }
}

} // verus!
