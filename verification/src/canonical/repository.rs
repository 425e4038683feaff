//! The store: commands under operation keys, lookups, guides and suggestions.

use crate::domain::command::{
    refusal, CommandContext, CommandContextView, CommandReceipt, CommandReceiptView, DomainCommand,
    DomainCommandView, DomainError, DomainErrorCode, DomainErrorView, DomainResult, ForgetMode,
};
use crate::domain::export::CanonicalExport;
use crate::domain::guide::{Guide, GuideView};
use crate::domain::id::{
    uuid_from_text, uuid_read, uuid_text, uuid_to_text, EntityId, OperationId, StoreGeneration,
};
use crate::domain::interpreter::{
    lemma_edited_at, receipt_result, ReferenceInterpreter,
};
use crate::domain::memory::{Memory, MemoryView};
use crate::domain::relation::{Relation, RelationType, RelationView};
use crate::domain::session::{Session, SessionView, Suggestion, SuggestionView};
use crate::domain::state::{
    applied, edited, has_memory, has_receipt, is_edge, memory_of, unique_aliases, unique_guides,
    unique_memories, unique_receipts, unique_sessions, StateView,
};
use crate::order::{text_lt, text_precedes};
use crate::rank::{
    key_ints, lemma_filter_ends, lemma_filter_members, lemma_filter_step, order_by, pick, ranked,
};
use crate::text::{clone_all, lower, lowercase, same, trim, trimmed, views};
use vstd::prelude::*;

verus! {

/// The store, with its clock.
#[derive(Debug)]
pub struct CanonicalRepository {
    pub state: ReferenceInterpreter,
}

impl View for CanonicalRepository {
    type V = StateView;

    open spec fn view(&self) -> StateView {
        self.state@
    }
}

/// The key of a guide: its name in lower case, trimmed.
pub open spec fn guide_key(name: Seq<char>) -> Seq<char> {
    trimmed(lowercase(name))
}

/// The key of a guide.
pub fn key_of_guide(name: &str) -> (r: String)
    ensures
        r@ == guide_key(name@),
{
    trim(lower(name).as_str())
}

/// Where the first guide with a key is, at or after `from`.
pub open spec fn guide_place(gs: Seq<GuideView>, key: Seq<char>, from: int) -> int
    decreases gs.len() - from,
{
    if from < 0 || from >= gs.len() || guide_key(gs[from].name) == key {
        from
    } else {
        guide_place(gs, key, from + 1)
    }
}

/// The guide of a name.
pub open spec fn guide_of(gs: Seq<GuideView>, name: Seq<char>) -> Option<GuideView> {
    let i = guide_place(gs, guide_key(name), 0);
    if i < gs.len() {
        Some(gs[i])
    } else {
        None
    }
}

/// The guides without those of a key.
pub open spec fn without_key(gs: Seq<GuideView>, key: Seq<char>) -> Seq<GuideView> {
    gs.filter(|g: GuideView| guide_key(g.name) != key)
}

/// Where a guide with a key belongs: before the first with a greater key.
pub open spec fn guide_slot(gs: Seq<GuideView>, key: Seq<char>, from: int) -> int
    decreases gs.len() - from,
{
    if from < 0 || from >= gs.len() || text_lt(key, guide_key(gs[from].name)) {
        from
    } else {
        guide_slot(gs, key, from + 1)
    }
}

/// The guides with one put in, in place of those with its key.
pub open spec fn with_guide(gs: Seq<GuideView>, g: GuideView) -> Seq<GuideView> {
    let rest = without_key(gs, guide_key(g.name));
    rest.insert(guide_slot(rest, guide_key(g.name), 0), g)
}

/// The memories by identifier.
pub open spec fn by_id(ms: Seq<MemoryView>) -> Seq<MemoryView> {
    ranked(ms, |m: MemoryView| (0int, m.id.0 as int))
}

/// The edges by identifier.
pub open spec fn edges_by_id(rs: Seq<RelationView>) -> Seq<RelationView> {
    ranked(rs, |r: RelationView| (0int, r.id.0 as int))
}

/// The identifier that an alias stands for.
pub open spec fn aliased(aliases: Seq<(Seq<char>, EntityId)>, alias: Seq<char>, from: int) -> Option<
    EntityId,
>
    decreases aliases.len() - from,
{
    if from < 0 || from >= aliases.len() {
        None
    } else if aliases[from].0 == alias {
        Some(aliases[from].1)
    } else {
        aliased(aliases, alias, from + 1)
    }
}

/// The memories with one put in, in place of the one with its identifier.
pub open spec fn with_memory(ms: Seq<MemoryView>, m: MemoryView) -> Seq<MemoryView> {
    if has_memory(ms, m.id) {
        edited(ms, m.id, |x: MemoryView| m)
    } else {
        ms.push(m)
    }
}

/// Whether an edge touches a memory.
pub open spec fn touches(r: RelationView, id: EntityId) -> bool {
    r.source == id || r.target == id
}

/// The memories of these identifiers that there are, in order.
pub open spec fn found(ms: Seq<MemoryView>, ids: Seq<EntityId>) -> Seq<MemoryView>
    decreases ids.len(),
{
    if ids.len() == 0 {
        Seq::empty()
    } else if has_memory(ms, ids.last()) {
        found(ms, ids.drop_last()).push(memory_of(ms, ids.last()))
    } else {
        found(ms, ids.drop_last())
    }
}

/// Where the suggestion with a number is, at or after `from`.
pub open spec fn suggestion_place(ss: Seq<SuggestionView>, id: u64, from: int) -> int
    decreases ss.len() - from,
{
    if from < 0 || from >= ss.len() || ss[from].id == id {
        from
    } else {
        suggestion_place(ss, id, from + 1)
    }
}

/// The suggestions with one put in, in place of the one with its number.
pub open spec fn with_suggestion(ss: Seq<SuggestionView>, s: SuggestionView) -> Seq<SuggestionView> {
    let i = suggestion_place(ss, s.id, 0);
    if i < ss.len() {
        ss.update(i, s)
    } else {
        ss.push(s)
    }
}

/// The greatest number of a suggestion; zero where there is none.
pub open spec fn last_number(ss: Seq<SuggestionView>) -> u64
    decreases ss.len(),
{
    if ss.len() == 0 {
        0
    } else {
        let m = last_number(ss.drop_last());
        if ss.last().id > m {
            ss.last().id
        } else {
            m
        }
    }
}

/// The name of a memory to the outside: its alias, or else its identifier.
pub open spec fn legacy_name(m: MemoryView) -> Seq<char> {
    match m.external_alias {
        Some(a) => a,
        None => uuid_text(m.id.0),
    }
}

/// The name of a memory to the outside.
pub fn legacy_id(m: &Memory) -> (r: String)
    ensures
        r@ == legacy_name(m@),
{
    match &m.external_alias {
        Some(a) => a.as_str().to_owned(),
        None => uuid_to_text(m.id.0),
    }
}

/// The name to the outside of an identifier.
pub open spec fn legacy_name_of(s: StateView, id: EntityId) -> Seq<char> {
    if has_memory(s.memories, id) {
        legacy_name(memory_of(s.memories, id))
    } else {
        uuid_text(id.0)
    }
}

/// The identifier that a name from the outside stands for.
pub open spec fn resolved(s: StateView, name: Seq<char>) -> Option<EntityId> {
    match aliased(s.aliases, name, 0) {
        Some(id) => Some(id),
        None => match uuid_read(name) {
            Ok(u) => Some(EntityId(u)),
            Err(_) => None,
        },
    }
}

/// The memory that a name from the outside stands for.
pub open spec fn looked_up(s: StateView, name: Seq<char>) -> Option<MemoryView> {
    match resolved(s, name) {
        Some(id) => if has_memory(s.memories, id) {
            Some(memory_of(s.memories, id))
        } else {
            None
        },
        None => None,
    }
}

/// What comes of a command in the store. A memory that is deleted for good
/// takes its edges with it.
pub open spec fn stored(s: StateView, ctx: CommandContextView, cmd: DomainCommandView) -> (
    StateView,
    Result<CommandReceiptView, DomainErrorView>,
) {
    let (after, r) = applied(s, ctx, cmd);
    let kept = has_receipt(s.receipts, ctx.store_generation, ctx.operation_id);
    match cmd {
        DomainCommandView::Forget { id, mode: ForgetMode::Delete } => if !kept && r is Ok {
            (
                StateView {
                    relations: after.relations.filter(|e: RelationView| !touches(e, id)),
                    ..after
                },
                r,
            )
        } else {
            (after, r)
        },
        _ => (after, r),
    }
}

proof fn lemma_without_key_unique(gs: Seq<GuideView>, key: Seq<char>)
    requires
        unique_guides(gs),
    ensures
        unique_guides(without_key(gs, key)),
        forall|k: int|
            0 <= k < without_key(gs, key).len() ==> guide_key(
                (#[trigger] without_key(gs, key)[k]).name,
            ) != key,
    decreases gs.len(),
{
    let keep = |g: GuideView| guide_key(g.name) != key;
    lemma_filter_members(gs, keep);
    reveal(Seq::filter);
    if gs.len() > 0 {
        let front = gs.drop_last();
        assert forall|i: int, j: int| 0 <= i < j < front.len() implies (#[trigger] front[i]).name
            != (#[trigger] front[j]).name by {
            assert(gs[i].name != gs[j].name);
        }
        lemma_without_key_unique(front, key);
        lemma_filter_members(front, keep);
        let f = without_key(gs, key);
        let g = without_key(front, key);
        assert forall|i: int, j: int| 0 <= i < j < f.len() implies (#[trigger] f[i]).name != (
        #[trigger] f[j]).name by {
            if j < g.len() {
                assert(f[i] == g[i] && f[j] == g[j]);
                assert(g[i].name != g[j].name);
            } else {
                assert(f[j] == gs.last());
                assert(f[i] == g[i]);
                assert(front.contains(g[i]));
                let k = front.index_of(g[i]);
                assert(gs[k].name != gs[gs.len() - 1].name);
            }
        }
    }
}

proof fn lemma_with_guide_unique(gs: Seq<GuideView>, g: GuideView)
    requires
        unique_guides(gs),
    ensures
        unique_guides(with_guide(gs, g)),
        0 <= guide_slot(without_key(gs, guide_key(g.name)), guide_key(g.name), 0)
            <= without_key(gs, guide_key(g.name)).len(),
{
    let key = guide_key(g.name);
    let rest = without_key(gs, key);
    lemma_without_key_unique(gs, key);
    lemma_slot(rest, key, 0);
    let p = guide_slot(rest, key, 0);
    let r = rest.insert(p, g);
    assert forall|i: int, j: int| 0 <= i < j < r.len() implies (#[trigger] r[i]).name != (
    #[trigger] r[j]).name by {
        let a = if i < p {
            i
        } else {
            i - 1
        };
        let b = if j < p {
            j
        } else {
            j - 1
        };
        if i == p {
            assert(r[j] == rest[b]);
            assert(guide_key(rest[b].name) != key);
        } else if j == p {
            assert(r[i] == rest[a]);
            assert(guide_key(rest[a].name) != key);
        } else {
            assert(r[i] == rest[a] && r[j] == rest[b]);
            assert(rest[a].name != rest[b].name);
        }
    }
}

proof fn lemma_slot(gs: Seq<GuideView>, key: Seq<char>, from: int)
    requires
        0 <= from <= gs.len(),
    ensures
        from <= guide_slot(gs, key, from) <= gs.len(),
    decreases gs.len() - from,
{
    if from < gs.len() && !text_lt(key, guide_key(gs[from].name)) {
        lemma_slot(gs, key, from + 1);
    }
}

/// Whether no two items of a list are the same in what counts.
pub open spec fn distinct<V>(s: Seq<V>, eq: spec_fn(V, V) -> bool) -> bool {
    forall|i: int, j: int| 0 <= i < j < s.len() ==> !eq(#[trigger] s[i], #[trigger] s[j])
}

fn all_distinct<T: View, F: Fn(&T, &T) -> bool>(
    v: &Vec<T>,
    f: F,
    Ghost(eq): Ghost<spec_fn(T::V, T::V) -> bool>,
) -> (r: bool)
    requires
        forall|a: &T, b: &T| #[trigger] call_requires(f, (a, b)),
        forall|a: &T, b: &T, x: bool| #[trigger]
            call_ensures(f, (a, b), x) ==> x == eq(a@, b@),
    ensures
        r == distinct(views(v@), eq),
{
    let ghost vs = views(v@);
    let mut j: usize = 0;
    while j < v.len()
        invariant
            j <= v@.len(),
            vs == views(v@),
            forall|a: &T, b: &T| #[trigger] call_requires(f, (a, b)),
            forall|a: &T, b: &T, x: bool| #[trigger]
                call_ensures(f, (a, b), x) ==> x == eq(a@, b@),
            forall|x: int, y: int|
                0 <= x < y < j ==> !eq(#[trigger] vs[x], #[trigger] vs[y]),
        decreases v@.len() - j,
    {
        let mut i: usize = 0;
        while i < j
            invariant
                i <= j < v@.len(),
                vs == views(v@),
                forall|a: &T, b: &T| #[trigger] call_requires(f, (a, b)),
                forall|a: &T, b: &T, x: bool| #[trigger]
                    call_ensures(f, (a, b), x) ==> x == eq(a@, b@),
                forall|x: int| 0 <= x < i ==> !eq(#[trigger] vs[x], vs[j as int]),
            decreases j - i,
        {
            proof {
                assert(vs[i as int] == v@[i as int]@);
                assert(vs[j as int] == v@[j as int]@);
            }
            if f(&v[i], &v[j]) {
                return false;
            }
            i += 1;
        }
        j += 1;
    }
    true
}

impl CanonicalRepository {
    /// The store that was kept, unless two of its records share a key.
    pub fn open(state: ReferenceInterpreter) -> (r: DomainResult<Self>)
        ensures
            match r {
                Ok(repo) => state@.wf() && repo@ == state@,
                Err(e) => !state@.wf() && e@ == refusal(
                    DomainErrorCode::Validation,
                    "corrupt store: two records share a key"@,
                ),
            },
    {
        let ghost s = state@;
        proof {
            assert(s.memories.len() == state.memories@.len());
            assert(s.guides.len() == state.guides@.len());
            assert(s.sessions.len() == state.sessions@.len());
            assert(s.receipts.len() == state.receipts@.len());
            assert(s.aliases.len() == state.aliases@.len());
        }
        let memories = all_distinct(
            &state.memories,
            |a: &Memory, b: &Memory| -> (x: bool)
                ensures
                    x == (a@.id == b@.id)
                { a.id == b.id },
            Ghost(|a: MemoryView, b: MemoryView| a.id == b.id),
        );
        let guides = all_distinct(
            &state.guides,
            |a: &Guide, b: &Guide| -> (x: bool)
                ensures
                    x == (a@.name == b@.name)
                { same(a.name.as_str(), b.name.as_str()) },
            Ghost(|a: GuideView, b: GuideView| a.name == b.name),
        );
        let sessions = all_distinct(
            &state.sessions,
            |a: &Session, b: &Session| -> (x: bool)
                ensures
                    x == (a@.handle == b@.handle)
                { a.handle == b.handle },
            Ghost(|a: SessionView, b: SessionView| a.handle == b.handle),
        );
        let receipts = all_distinct(
            &state.receipts,
            |a: &CommandReceipt, b: &CommandReceipt| -> (x: bool)
                ensures
                    x == (a@.store_generation == b@.store_generation && a@.operation_id
                        == b@.operation_id)
                { a.store_generation == b.store_generation && a.operation_id == b.operation_id },
            Ghost(
                |a: CommandReceiptView, b: CommandReceiptView|
                    a.store_generation == b.store_generation && a.operation_id == b.operation_id,
            ),
        );
        let mut names: Vec<String> = Vec::new();
        let mut i: usize = 0;
        while i < state.aliases.len()
            invariant
                i <= state.aliases@.len(),
                s == state@,
                s.aliases.len() == state.aliases@.len(),
                names@.len() == i,
                forall|k: int| 0 <= k < i ==> (#[trigger] names@[k])@ == s.aliases[k].0,
            decreases state.aliases@.len() - i,
        {
            names.push(state.aliases[i].0.as_str().to_owned());
            i += 1;
        }
        let aliases = all_distinct(
            &names,
            |a: &String, b: &String| -> (x: bool)
                ensures
                    x == (a@ == b@)
                { same(a.as_str(), b.as_str()) },
            Ghost(|a: Seq<char>, b: Seq<char>| a == b),
        );
        proof {
            assert(views(names@) =~= s.aliases.map_values(|a: (Seq<char>, EntityId)| a.0));
            assert(aliases ==> unique_aliases(s.aliases)) by {
                if aliases {
                    assert forall|i: int, j: int| 0 <= i < j < s.aliases.len() implies (
                    #[trigger] s.aliases[i]).0 != (#[trigger] s.aliases[j]).0 by {
                        assert(views(names@)[i] != views(names@)[j]);
                    }
                }
            }
            assert(unique_aliases(s.aliases) ==> aliases) by {
                if unique_aliases(s.aliases) {
                    assert forall|i: int, j: int| 0 <= i < j < views(names@).len() implies (
                    #[trigger] views(names@)[i]) != (#[trigger] views(names@)[j]) by {
                        assert(s.aliases[i].0 != s.aliases[j].0);
                    }
                }
            }
            assert(memories == unique_memories(s.memories));
            assert(guides == unique_guides(s.guides));
            assert(sessions == unique_sessions(s.sessions));
            assert(receipts == unique_receipts(s.receipts));
            assert(aliases == unique_aliases(s.aliases));
        }
        if memories && guides && sessions && receipts && aliases {
            Ok(CanonicalRepository { state })
        } else {
            Err(
                DomainError::new(
                    DomainErrorCode::Validation,
                    "corrupt store: two records share a key",
                ),
            )
        }
    }

    /// An empty store whose clock stands at `now_millis`.
    pub fn new(now_millis: u64) -> (r: Self)
        ensures
            r@.wf(),
            r@.now == now_millis,
            r@.store_generation == StoreGeneration(1),
            r@.memories.len() == 0,
            r@.aliases.len() == 0,
            r@.guides.len() == 0,
            r@.sessions.len() == 0,
            r@.relations.len() == 0,
            r@.feedback.len() == 0,
            r@.suggestions.len() == 0,
            r@.receipts.len() == 0,
            r@.revision == 0,
            r@.last_id == 0,
    {
        CanonicalRepository { state: ReferenceInterpreter::new(0, now_millis) }
    }

    pub fn store_generation(&self) -> (r: StoreGeneration)
        ensures
            r == self@.store_generation,
    {
        self.state.store_generation
    }

    /// The time on the store's clock.
    pub fn now_millis(&self) -> (r: u64)
        ensures
            r == self@.now,
    {
        self.state.clock.now_millis()
    }

    /// Sets the store's clock.
    pub fn set_now(&mut self, now_millis: u64)
        ensures
            final(self)@ == (StateView { now: now_millis, ..old(self)@ }),
    {
        self.state.clock = crate::domain::clock::FrozenClock::new(now_millis);
    }

    /// Applies a command under its operation key: once, and wholly or not at
    /// all.
    pub fn apply(&mut self, ctx: &CommandContext, cmd: &DomainCommand) -> (r: DomainResult<
        CommandReceipt,
    >)
        requires
            old(self)@.wf(),
            old(self)@.room(cmd@.weight()),
        ensures
            final(self)@.wf(),
            final(self)@ == stored(old(self)@, ctx@, cmd@).0,
            receipt_result(r) == stored(old(self)@, ctx@, cmd@).1,
    {
        let kept = self.state.lookup_receipt(ctx.store_generation, ctx.operation_id).is_some();
        let r = self.state.apply(ctx, cmd);
        if let DomainCommand::Forget { id, mode: ForgetMode::Delete } = cmd {
            if !kept && r.is_ok() {
                self.sever(*id);
            }
        }
        r
    }

    /// Removes the edges that touch a memory.
    fn sever(&mut self, id: EntityId)
        requires
            old(self)@.wf(),
        ensures
            final(self)@.wf(),
            final(self)@ == (StateView {
                relations: old(self)@.relations.filter(|e: RelationView| !touches(e, id)),
                ..old(self)@
            }),
    {
        let ghost s = self@.relations;
        let ghost keep = |e: RelationView| !touches(e, id);
        let mut out: Vec<Relation> = Vec::new();
        let mut i: usize = 0;
        proof {
            lemma_filter_ends(s, keep);
            assert(views(out@) =~= Seq::empty());
        }
        while i < self.state.relations.len()
            invariant
                i <= self.state.relations@.len(),
                s == views(self.state.relations@),
                keep == (|e: RelationView| !touches(e, id)),
                views(out@) == s.take(i as int).filter(keep),
            decreases self.state.relations@.len() - i,
        {
            broadcast use crate::text::lemma_views_push;

            proof {
                lemma_filter_step(s, i as int, keep);
                assert(s[i as int] == self.state.relations@[i as int]@);
            }
            let e = &self.state.relations[i];
            if e.source != id && e.target != id {
                out.push(e.clone());
            }
            i += 1;
        }
        self.state.relations = out;
        proof {
            lemma_filter_ends(s, keep);
        }
    }

    pub fn lookup_receipt(&self, generation: StoreGeneration, op: OperationId) -> (r: Option<
        CommandReceipt,
    >)
        requires
            self@.wf(),
        ensures
            r is Some == has_receipt(self@.receipts, generation, op),
            r is Some ==> r->0@ == crate::domain::state::receipt_of(self@.receipts, generation, op),
    {
        match self.state.lookup_receipt(generation, op) {
            Some(x) => Some(x.clone()),
            None => None,
        }
    }

    /// The memory with an identifier.
    pub fn memory(&self, id: EntityId) -> (r: Option<&Memory>)
        requires
            self@.wf(),
        ensures
            match r {
                Some(m) => has_memory(self@.memories, id) && m@ == memory_of(self@.memories, id)
                    && m@.id == id,
                None => !has_memory(self@.memories, id),
            },
    {
        proof {
            if has_memory(self@.memories, id) {
                let i = choose|i: int|
                    0 <= i < self@.memories.len() && (#[trigger] self@.memories[i]).id == id;
                lemma_edited_at(self@.memories, i, |m: MemoryView| m);
            }
        }
        self.state.memory(id)
    }

    /// The memories of these identifiers that there are, in order.
    pub fn get_memories(&self, ids: &Vec<EntityId>) -> (r: Vec<Memory>)
        requires
            self@.wf(),
        ensures
            views(r@) == found(self@.memories, ids@),
    {
        let mut out: Vec<Memory> = Vec::new();
        let mut i: usize = 0;
        proof {
            assert(views(out@) =~= Seq::empty());
            assert(ids@.take(0) =~= Seq::empty());
        }
        while i < ids.len()
            invariant
                i <= ids@.len(),
                self@.wf(),
                views(out@) == found(self@.memories, ids@.take(i as int)),
            decreases ids@.len() - i,
        {
            broadcast use crate::text::lemma_views_push;

            proof {
                let t = ids@.take(i + 1);
                assert(t.drop_last() =~= ids@.take(i as int));
                assert(t.last() == ids@[i as int]);
            }
            if let Some(m) = self.memory(ids[i]) {
                out.push(m.clone());
            }
            i += 1;
        }
        proof {
            assert(ids@.take(ids@.len() as int) =~= ids@);
        }
        out
    }

    /// The edges that touch a memory.
    pub fn neighbors(&self, id: EntityId) -> (r: Vec<Relation>)
        ensures
            views(r@) == edges_by_id(self@.relations).filter(|e: RelationView| touches(e, id)),
    {
        let all = self.all_relations();
        let ghost s = views(all@);
        let ghost keep = |e: RelationView| touches(e, id);
        let mut out: Vec<Relation> = Vec::new();
        let mut i: usize = 0;
        proof {
            lemma_filter_ends(s, keep);
            assert(views(out@) =~= Seq::empty());
        }
        while i < all.len()
            invariant
                i <= all@.len(),
                s == views(all@),
                keep == (|e: RelationView| touches(e, id)),
                views(out@) == s.take(i as int).filter(keep),
            decreases all@.len() - i,
        {
            broadcast use crate::text::lemma_views_push;

            proof {
                lemma_filter_step(s, i as int, keep);
                assert(s[i as int] == all@[i as int]@);
            }
            if all[i].source == id || all[i].target == id {
                out.push(all[i].clone());
            }
            i += 1;
        }
        proof {
            lemma_filter_ends(s, keep);
        }
        out
    }

    /// All edges, by identifier.
    pub fn all_relations(&self) -> (r: Vec<Relation>)
        ensures
            views(r@) == edges_by_id(self@.relations),
    {
        let mut keys: Vec<(i128, u128)> = Vec::new();
        let ghost key = |r: RelationView| (0int, r.id.0 as int);
        let mut i: usize = 0;
        while i < self.state.relations.len()
            invariant
                i <= self.state.relations@.len(),
                keys@.len() == i,
                forall|j: int|
                    0 <= j < i ==> (#[trigger] keys@[j]) == (0i128, self@.relations[j].id.0),
            decreases self.state.relations@.len() - i,
        {
            proof {
                assert(self@.relations[i as int] == self.state.relations@[i as int]@);
            }
            keys.push((0, self.state.relations[i].id.0));
            i += 1;
        }
        let order = order_by(&keys);
        proof {
            assert(key_ints(keys@) =~= self@.relations.map_values(key));
        }
        pick(&self.state.relations, &order)
    }

    /// All memories, by identifier.
    pub fn all_memories(&self) -> (r: Vec<Memory>)
        ensures
            views(r@) == by_id(self@.memories),
    {
        let mut keys: Vec<(i128, u128)> = Vec::new();
        let ghost key = |m: MemoryView| (0int, m.id.0 as int);
        let mut i: usize = 0;
        while i < self.state.memories.len()
            invariant
                i <= self.state.memories@.len(),
                keys@.len() == i,
                forall|j: int|
                    0 <= j < i ==> (#[trigger] keys@[j]) == (0i128, self@.memories[j].id.0),
            decreases self.state.memories@.len() - i,
        {
            proof {
                assert(self@.memories[i as int] == self.state.memories@[i as int]@);
            }
            keys.push((0, self.state.memories[i].id.0));
            i += 1;
        }
        let order = order_by(&keys);
        proof {
            assert(key_ints(keys@) =~= self@.memories.map_values(key));
        }
        pick(&self.state.memories, &order)
    }

    /// The identifier that a name from the outside stands for.
    pub fn resolve_id(&self, name: &str) -> (r: DomainResult<EntityId>)
        ensures
            match resolved(self@, name@) {
                Some(id) => r == Ok::<EntityId, DomainError>(id),
                None => r is Err && r->Err_0@ == refusal(
                    DomainErrorCode::NotFound,
                    "no memory with this id"@,
                ),
            },
    {
        let mut i: usize = 0;
        while i < self.state.aliases.len()
            invariant
                i <= self.state.aliases@.len(),
                aliased(self@.aliases, name@, 0) == aliased(self@.aliases, name@, i as int),
            decreases self.state.aliases@.len() - i,
        {
            proof {
                assert(self@.aliases[i as int] == (
                    self.state.aliases@[i as int].0@,
                    self.state.aliases@[i as int].1,
                ));
            }
            if same(self.state.aliases[i].0.as_str(), name) {
                return Ok(self.state.aliases[i].1);
            }
            i += 1;
        }
        match uuid_from_text(name) {
            Ok(u) => Ok(EntityId::new(u)),
            Err(_) => Err(DomainError::new(DomainErrorCode::NotFound, "no memory with this id")),
        }
    }

    /// The memory that a name from the outside stands for.
    pub fn look_up(&self, name: &str) -> (r: Option<Memory>)
        requires
            self@.wf(),
        ensures
            match r {
                Some(m) => looked_up(self@, name@) == Some(m@) && resolved(self@, name@) == Some(
                    m.id,
                ) && has_memory(self@.memories, m.id) && m@ == memory_of(self@.memories, m.id),
                None => looked_up(self@, name@) is None,
            },
    {
        match self.resolve_id(name) {
            Ok(id) => match self.memory(id) {
                Some(m) => Some(m.clone()),
                None => None,
            },
            Err(_) => None,
        }
    }

    /// The name of a memory to the outside.
    pub fn legacy_id(&self, m: &Memory) -> (r: String)
        ensures
            r@ == legacy_name(m@),
    {
        legacy_id(m)
    }

    /// The name to the outside of an identifier.
    pub fn legacy_id_of(&self, id: EntityId) -> (r: String)
        requires
            self@.wf(),
        ensures
            r@ == legacy_name_of(self@, id),
    {
        match self.memory(id) {
            Some(m) => self.legacy_id(m),
            None => uuid_to_text(id.0),
        }
    }

    /// Whether there is an edge with these ends and this type.
    pub fn relation_exists(&self, source: EntityId, target: EntityId, rtype: RelationType) -> (r:
        bool)
        ensures
            r == (exists|i: int|
                0 <= i < self@.relations.len() && #[trigger] is_edge(
                    self@.relations[i],
                    source,
                    target,
                    rtype,
                )),
    {
        let mut i: usize = 0;
        while i < self.state.relations.len()
            invariant
                i <= self.state.relations@.len(),
                forall|j: int|
                    0 <= j < i ==> !#[trigger] is_edge(self@.relations[j], source, target, rtype),
            decreases self.state.relations@.len() - i,
        {
            let e = &self.state.relations[i];
            proof {
                assert(self@.relations[i as int] == self.state.relations@[i as int]@);
            }
            if e.source == source && e.target == target && e.relation_type == rtype {
                proof {
                    assert(is_edge(self@.relations[i as int], source, target, rtype));
                }
                return true;
            }
            i += 1;
        }
        false
    }

    /// Puts a memory in, in place of the one with its identifier.
    pub fn put_memory_direct(&mut self, m: &Memory)
        requires
            old(self)@.wf(),
        ensures
            final(self)@.wf(),
            final(self)@ == (StateView {
                memories: with_memory(old(self)@.memories, m@),
                ..old(self)@
            }),
    {
        let ghost before = self.state.memories@;
        match self.state.memory_position(m.id) {
            Some(i) => {
                proof {
                    lemma_edited_at(self@.memories, i as int, |x: MemoryView| m@);
                }
                self.state.memories.set(i, m.clone());
                proof {
                    assert(views(self.state.memories@) =~= views(before).update(i as int, m@));
                    assert forall|a: int, b: int| 0 <= a < b < self@.memories.len() implies (
                    #[trigger] self@.memories[a]).id != (#[trigger] self@.memories[b]).id by {
                        assert(views(before)[a].id != views(before)[b].id);
                    }
                }
            },
            None => {
                self.state.memories.push(m.clone());
                proof {
                    assert(views(self.state.memories@) =~= views(before).push(m@));
                    assert forall|a: int| 0 <= a < views(before).len() implies (#[trigger] views(
                        before,
                    )[a]).id != m@.id by {}
                }
            },
        }
    }

    /// Puts what a change makes of each memory in its place.
    pub fn edit_memories<F: Fn(&Memory) -> Memory>(
        &mut self,
        f: F,
        Ghost(change): Ghost<spec_fn(MemoryView) -> MemoryView>,
    )
        requires
            old(self)@.wf(),
            old(self)@.room(1),
            forall|m: MemoryView| (#[trigger] change(m)).id == m.id,
            forall|x: &Memory| x@.room(1) ==> #[trigger] call_requires(f, (x,)),
            forall|x: &Memory, y: Memory| #[trigger] call_ensures(f, (x,), y) ==> y@ == change(x@),
        ensures
            final(self)@.wf(),
            final(self)@ == (StateView {
                memories: old(self)@.memories.map_values(change),
                ..old(self)@
            }),
    {
        let ghost all = self@.memories;
        let mut out: Vec<Memory> = Vec::new();
        let mut i: usize = 0;
        while i < self.state.memories.len()
            invariant
                i <= self.state.memories@.len(),
                all == views(self.state.memories@),
                self@ == old(self)@,
                self@.room(1),
                out@.len() == i,
                forall|j: int| 0 <= j < i ==> (#[trigger] out@[j])@ == change(all[j]),
                forall|x: &Memory| x@.room(1) ==> #[trigger] call_requires(f, (x,)),
                forall|x: &Memory, y: Memory| #[trigger]
                    call_ensures(f, (x,), y) ==> y@ == change(x@),
            decreases self.state.memories@.len() - i,
        {
            proof {
                assert(all[i as int] == self.state.memories@[i as int]@);
                assert(self@.memories[i as int].room(1));
            }
            let m = f(&self.state.memories[i]);
            out.push(m);
            i += 1;
        }
        self.state.memories = out;
        proof {
            assert(self@.memories =~= all.map_values(change));
            assert forall|a: int, b: int| 0 <= a < b < self@.memories.len() implies (
            #[trigger] self@.memories[a]).id != (#[trigger] self@.memories[b]).id by {
                assert(all[a].id != all[b].id);
            }
        }
    }

    /// The guide of a name.
    pub fn get_guide(&self, name: &str) -> (r: Option<Guide>)
        ensures
            crate::text::opt_view(r) == guide_of(self@.guides, name@),
    {
        let key = key_of_guide(name);
        let mut i: usize = 0;
        while i < self.state.guides.len()
            invariant
                i <= self.state.guides@.len(),
                key@ == guide_key(name@),
                guide_place(self@.guides, key@, 0) == guide_place(self@.guides, key@, i as int),
            decreases self.state.guides@.len() - i,
        {
            proof {
                assert(self@.guides[i as int] == self.state.guides@[i as int]@);
            }
            let k = key_of_guide(self.state.guides[i].name.as_str());
            if same(k.as_str(), key.as_str()) {
                return Some(self.state.guides[i].clone());
            }
            i += 1;
        }
        None
    }

    /// All guides, by name.
    pub fn get_guides(&self) -> (r: Vec<Guide>)
        ensures
            views(r@) == self@.guides,
    {
        clone_all(&self.state.guides)
    }

    /// Removes the guide of a name.
    pub fn delete_guide(&mut self, name: &str)
        requires
            old(self)@.wf(),
        ensures
            final(self)@.wf(),
            final(self)@ == (StateView {
                guides: without_key(old(self)@.guides, guide_key(name@)),
                ..old(self)@
            }),
    {
        let key = key_of_guide(name);
        let ghost s = self@.guides;
        let ghost keep = |g: GuideView| guide_key(g.name) != key@;
        let mut out: Vec<Guide> = Vec::new();
        let mut i: usize = 0;
        proof {
            lemma_filter_ends(s, keep);
            assert(views(out@) =~= Seq::empty());
        }
        while i < self.state.guides.len()
            invariant
                i <= self.state.guides@.len(),
                s == views(self.state.guides@),
                keep == (|g: GuideView| guide_key(g.name) != key@),
                views(out@) == s.take(i as int).filter(keep),
            decreases self.state.guides@.len() - i,
        {
            broadcast use crate::text::lemma_views_push;

            proof {
                lemma_filter_step(s, i as int, keep);
                assert(s[i as int] == self.state.guides@[i as int]@);
            }
            let g = &self.state.guides[i];
            let k = key_of_guide(g.name.as_str());
            if !same(k.as_str(), key.as_str()) {
                out.push(g.clone());
            }
            i += 1;
        }
        proof {
            lemma_filter_ends(s, keep);
            lemma_without_key_unique(s, key@);
        }
        self.state.guides = out;
    }

    /// Puts a guide in, in place of the one with its key.
    pub fn put_guide(&mut self, guide: &Guide)
        requires
            old(self)@.wf(),
        ensures
            final(self)@.wf(),
            final(self)@ == (StateView {
                guides: with_guide(old(self)@.guides, guide@),
                ..old(self)@
            }),
    {
        let ghost all = self@.guides;
        self.delete_guide(guide.name.as_str());
        let key = key_of_guide(guide.name.as_str());
        let ghost rest = self@.guides;
        let mut i: usize = 0;
        while i < self.state.guides.len() && !text_precedes(
            key.as_str(),
            key_of_guide(self.state.guides[i].name.as_str()).as_str(),
        )
            invariant
                i <= self.state.guides@.len(),
                rest == self@.guides,
                key@ == guide_key(guide.name@),
                guide_slot(rest, key@, 0) == guide_slot(rest, key@, i as int),
            decreases self.state.guides@.len() - i,
        {
            proof {
                assert(self@.guides[i as int] == self.state.guides@[i as int]@);
            }
            i += 1;
        }
        proof {
            if i < self.state.guides@.len() {
                assert(self@.guides[i as int] == self.state.guides@[i as int]@);
            }
            assert(guide_slot(rest, key@, 0) == i);
            lemma_with_guide_unique(all, guide@);
        }
        let ghost before = self.state.guides@;
        self.state.guides.insert(i, guide.clone());
        proof {
            assert(views(self.state.guides@) =~= views(before).insert(i as int, guide@));
        }
    }

    /// The suggestion with a number.
    pub fn get_suggestion(&self, id: u64) -> (r: Option<Suggestion>)
        ensures
            ({
                let i = suggestion_place(self@.suggestions, id, 0);
                match r {
                    Some(s) => i < self@.suggestions.len() && s@ == self@.suggestions[i],
                    None => i >= self@.suggestions.len(),
                }
            }),
    {
        let mut i: usize = 0;
        while i < self.state.suggestions.len()
            invariant
                i <= self.state.suggestions@.len(),
                suggestion_place(self@.suggestions, id, 0) == suggestion_place(
                    self@.suggestions,
                    id,
                    i as int,
                ),
            decreases self.state.suggestions@.len() - i,
        {
            proof {
                assert(self@.suggestions[i as int] == self.state.suggestions@[i as int]@);
            }
            if self.state.suggestions[i].id == id {
                return Some(self.state.suggestions[i].clone());
            }
            i += 1;
        }
        None
    }

    /// All suggestions.
    pub fn get_suggestions(&self) -> (r: Vec<Suggestion>)
        ensures
            views(r@) == self@.suggestions,
    {
        clone_all(&self.state.suggestions)
    }

    /// Puts a suggestion in, in place of the one with its number.
    pub fn put_suggestion(&mut self, s: &Suggestion)
        requires
            old(self)@.wf(),
        ensures
            final(self)@.wf(),
            final(self)@ == (StateView {
                suggestions: with_suggestion(old(self)@.suggestions, s@),
                ..old(self)@
            }),
    {
        let ghost before = self.state.suggestions@;
        let mut i: usize = 0;
        while i < self.state.suggestions.len() && self.state.suggestions[i].id != s.id
            invariant
                i <= self.state.suggestions@.len(),
                suggestion_place(self@.suggestions, s.id, 0) == suggestion_place(
                    self@.suggestions,
                    s.id,
                    i as int,
                ),
            decreases self.state.suggestions@.len() - i,
        {
            proof {
                assert(self@.suggestions[i as int] == self.state.suggestions@[i as int]@);
            }
            i += 1;
        }
        if i < self.state.suggestions.len() {
            proof {
                assert(self@.suggestions[i as int] == self.state.suggestions@[i as int]@);
            }
            self.state.suggestions.set(i, s.clone());
            proof {
                assert(views(self.state.suggestions@) =~= views(before).update(i as int, s@));
            }
        } else {
            self.state.suggestions.push(s.clone());
            proof {
                assert(views(self.state.suggestions@) =~= views(before).push(s@));
            }
        }
    }

    /// The greatest number of a suggestion; zero where there is none.
    pub fn last_suggestion_id(&self) -> (r: u64)
        ensures
            r == last_number(self@.suggestions),
    {
        let mut most: u64 = 0;
        let mut i: usize = 0;
        proof {
            assert(self@.suggestions.take(0) =~= Seq::empty());
        }
        while i < self.state.suggestions.len()
            invariant
                i <= self.state.suggestions@.len(),
                most == last_number(self@.suggestions.take(i as int)),
            decreases self.state.suggestions@.len() - i,
        {
            proof {
                let t = self@.suggestions.take(i + 1);
                assert(t.drop_last() =~= self@.suggestions.take(i as int));
                assert(t.last() == self.state.suggestions@[i as int]@);
            }
            if self.state.suggestions[i].id > most {
                most = self.state.suggestions[i].id;
            }
            i += 1;
        }
        proof {
            assert(self@.suggestions.take(self@.suggestions.len() as int) =~= self@.suggestions);
        }
        most
    }

    /// A number that no suggestion has.
    pub fn next_suggestion_id(&self) -> (r: u64)
        requires
            last_number(self@.suggestions) < u64::MAX,
        ensures
            r == last_number(self@.suggestions) + 1,
    {
        self.last_suggestion_id() + 1
    }

    /// The memories and the edges of the store, by identifier.
    pub fn export_snapshot(&self) -> (r: CanonicalExport)
        ensures
            views(r.memories@) == by_id(self@.memories),
            views(r.relations@) == edges_by_id(self@.relations),
            r.guides@.len() == 0,
            r.sessions@.len() == 0,
            r.feedback@.len() == 0,
            r.suggestions@.len() == 0,
            r.projects@.len() == 0,
            r.archives@.len() == 0,
            r.history@.len() == 0,
            r.unknown_fields@.len() == 0,
    {
        let mut out = CanonicalExport::default();
        out.memories = self.all_memories();
        out.relations = self.all_relations();
        out
    }

    /// Whether every counter can still be stepped `n` times.
    pub fn has_room(&self, n: u64) -> (r: bool)
        ensures
            r == self@.room(n as int),
    {
        self.state.has_room(n)
    }
}

} // verus!
