//! Memory records: optional quality, life cycle, evidence and provenance.

use crate::domain::id::{
    DocumentRevision, EligibilityRevision, EntityId, EntityRevision, ExternalAlias,
};
use crate::domain::relation::{Relation, RelationView};
use crate::domain::score::Score;
use crate::text::{clone_all, opt_view, same, views};
use vstd::prelude::*;

verus! {

/// A point in time, in milliseconds since the epoch.
#[derive(Debug, Clone, Copy, PartialEq, Eq, PartialOrd, Ord, Hash, Structural)]
pub struct Instant(pub u64);

impl Instant {
    pub fn new(millis: u64) -> (r: Self)
        ensures
            r == Instant(millis),
    {
        Instant(millis)
    }

    pub fn as_millis(&self) -> (r: u64)
        ensures
            r == self.0,
    {
        self.0
    }
}

/// Who a memory came from.
#[derive(Debug, Clone, Copy, PartialEq, Eq, Hash, Structural)]
pub enum MemorySource {
    User,
    Ai,
}

impl MemorySource {
    /// The name of the value on the wire.
    pub open spec fn name(self) -> Seq<char> {
        match self {
            MemorySource::User => "user"@,
            MemorySource::Ai => "ai"@,
        }
    }

    /// The value with a given name.
    pub open spec fn named(s: Seq<char>) -> Option<MemorySource> {
        if s == "user"@ {
            Some(MemorySource::User)
        } else if s == "ai"@ {
            Some(MemorySource::Ai)
        } else {
            None
        }
    }

    pub fn as_str(&self) -> (r: &'static str)
        ensures
            r@ == self.name(),
    {
        match self {
            MemorySource::User => "user",
            MemorySource::Ai => "ai",
        }
    }

    pub fn parse(s: &str) -> (r: Option<Self>)
        ensures
            r == MemorySource::named(s@),
    {
        if same(s, "user") {
            Some(MemorySource::User)
        } else if same(s, "ai") {
            Some(MemorySource::Ai)
        } else {
            None
        }
    }
}

/// A value is read back from its name, and nothing but its name is read as it.
pub proof fn law_memory_source_names(t: MemorySource, s: Seq<char>)
    ensures
        MemorySource::named(t.name()) == Some(t),
        MemorySource::named(s) == Some(t) ==> s == t.name(),
{
    reveal_strlit("user");
    reveal_strlit("ai");
    assert("user"@.len() == 4);
    assert("ai"@.len() == 2);
}

/// What kind of knowledge a memory holds.
#[derive(Debug, Clone, Copy, PartialEq, Eq, Hash, Structural)]
pub enum FragmentType {
    Fact,
    Pattern,
    Lesson,
    Warning,
    Context,
}

impl FragmentType {
    /// The name of the value on the wire.
    pub open spec fn name(self) -> Seq<char> {
        match self {
            FragmentType::Fact => "fact"@,
            FragmentType::Pattern => "pattern"@,
            FragmentType::Lesson => "lesson"@,
            FragmentType::Warning => "warning"@,
            FragmentType::Context => "context"@,
        }
    }

    /// The value with a given name.
    pub open spec fn named(s: Seq<char>) -> Option<FragmentType> {
        if s == "fact"@ {
            Some(FragmentType::Fact)
        } else if s == "pattern"@ {
            Some(FragmentType::Pattern)
        } else if s == "lesson"@ {
            Some(FragmentType::Lesson)
        } else if s == "warning"@ {
            Some(FragmentType::Warning)
        } else if s == "context"@ {
            Some(FragmentType::Context)
        } else {
            None
        }
    }

    pub fn as_str(&self) -> (r: &'static str)
        ensures
            r@ == self.name(),
    {
        match self {
            FragmentType::Fact => "fact",
            FragmentType::Pattern => "pattern",
            FragmentType::Lesson => "lesson",
            FragmentType::Warning => "warning",
            FragmentType::Context => "context",
        }
    }

    pub fn parse(s: &str) -> (r: Option<Self>)
        ensures
            r == FragmentType::named(s@),
    {
        if same(s, "fact") {
            Some(FragmentType::Fact)
        } else if same(s, "pattern") {
            Some(FragmentType::Pattern)
        } else if same(s, "lesson") {
            Some(FragmentType::Lesson)
        } else if same(s, "warning") {
            Some(FragmentType::Warning)
        } else if same(s, "context") {
            Some(FragmentType::Context)
        } else {
            None
        }
    }
}

/// A value is read back from its name, and nothing but its name is read as it.
pub proof fn law_fragment_type_names(t: FragmentType, s: Seq<char>)
    ensures
        FragmentType::named(t.name()) == Some(t),
        FragmentType::named(s) == Some(t) ==> s == t.name(),
{
    reveal_strlit("fact");
    reveal_strlit("pattern");
    reveal_strlit("lesson");
    reveal_strlit("warning");
    reveal_strlit("context");
    assert("fact"@.len() == 4);
    assert("pattern"@.len() == 7);
    assert("lesson"@.len() == 6);
    assert("warning"@.len() == 7);
    assert("context"@.len() == 7);
    assert("warning"@[0] == 'w');
    assert("pattern"@[0] == 'p');
    assert("context"@[0] == 'c');
}

/// Whether a memory is live, and if not, since when and why.
#[derive(Debug, Clone, Copy, PartialEq, Eq, Structural)]
pub enum MemoryLifecycle {
    Live,
    Invalidated { at: Instant },
    Archived { at: Instant },
    Deleted { at: Instant },
}

impl MemoryLifecycle {
    /// Only live memories are recalled.
    pub fn is_recallable(&self) -> (r: bool)
        ensures
            r == (*self is Live),
    {
        matches!(self, MemoryLifecycle::Live)
    }
}

/// A copy of a list of identifiers.
pub fn clone_ids(v: &Vec<EntityId>) -> (r: Vec<EntityId>)
    ensures
        r@ == v@,
{
    let r = v.clone();
    proof {
        assert forall|i: int| 0 <= i < v@.len() implies r@[i] == v@[i] by {
            assert(cloned::<EntityId>(v@[i], r@[i]));
        }
        assert(r@ =~= v@);
    }
    r
}

/// A snippet of a file that a memory rests on.
#[derive(Debug, PartialEq)]
pub struct Evidence {
    pub file: String,
    pub symbol: Option<String>,
    pub snippet: String,
    pub snippet_sha256: String,
}

/// The content of a piece of evidence.
#[verifier::ext_equal]
pub struct EvidenceView {
    pub file: Seq<char>,
    pub symbol: Option<Seq<char>>,
    pub snippet: Seq<char>,
    pub snippet_sha256: Seq<char>,
}

impl View for Evidence {
    type V = EvidenceView;

    open spec fn view(&self) -> EvidenceView {
        EvidenceView {
            file: self.file@,
            symbol: opt_view(self.symbol),
            snippet: self.snippet@,
            snippet_sha256: self.snippet_sha256@,
        }
    }
}

impl Clone for Evidence {
    fn clone(&self) -> (r: Self)
        ensures
            r@ == self@,
    {
        Evidence {
            file: self.file.clone(),
            symbol: self.symbol.clone(),
            snippet: self.snippet.clone(),
            snippet_sha256: self.snippet_sha256.clone(),
        }
    }
}

/// A field of a record that this version does not know, kept as its JSON text.
#[derive(Debug, PartialEq)]
pub struct UnknownField {
    pub name: String,
    pub json: String,
}

/// The content of an unknown field.
#[verifier::ext_equal]
pub struct UnknownFieldView {
    pub name: Seq<char>,
    pub json: Seq<char>,
}

impl View for UnknownField {
    type V = UnknownFieldView;

    open spec fn view(&self) -> UnknownFieldView {
        UnknownFieldView {
            name: self.name@,
            json: self.json@,
        }
    }
}

impl Clone for UnknownField {
    fn clone(&self) -> (r: Self)
        ensures
            r@ == self@,
    {
        UnknownField {
            name: self.name.clone(),
            json: self.json.clone(),
        }
    }
}

/// A memory: what was learned, where it came from, and how it has fared.
#[derive(Debug, PartialEq)]
pub struct Memory {
    pub id: EntityId,
    pub external_alias: Option<ExternalAlias>,
    pub title: String,
    pub fragment: String,
    pub description: String,
    pub fragment_type: FragmentType,
    pub project: Option<String>,
    pub source: MemorySource,
    pub confidence: Score,
    pub quality_score: Option<Score>,
    pub lifecycle: MemoryLifecycle,
    pub tags: Vec<String>,
    pub associated_with: Vec<String>,
    pub relations: Vec<Relation>,
    pub parent_id: Option<EntityId>,
    pub child_ids: Vec<EntityId>,
    pub session_id: Option<String>,
    pub task_type: Option<String>,
    pub related_guides: Vec<String>,
    pub evidence: Vec<Evidence>,
    pub access_count: u64,
    pub last_accessed_at: Option<Instant>,
    pub positive_feedback: u64,
    pub negative_feedback: u64,
    pub negative_hits: u64,
    pub refinement_count: u64,
    pub distill_candidate: bool,
    pub entity_revision: EntityRevision,
    pub document_revision: DocumentRevision,
    pub eligibility_revision: EligibilityRevision,
    pub created_at: Instant,
    pub updated_at: Instant,
    pub raw_created: Option<String>,
    pub unknown_fields: Vec<UnknownField>,
}

/// The content of a memory.
#[verifier::ext_equal]
pub struct MemoryView {
    pub id: EntityId,
    pub external_alias: Option<Seq<char>>,
    pub title: Seq<char>,
    pub fragment: Seq<char>,
    pub description: Seq<char>,
    pub fragment_type: FragmentType,
    pub project: Option<Seq<char>>,
    pub source: MemorySource,
    pub confidence: Score,
    pub quality_score: Option<Score>,
    pub lifecycle: MemoryLifecycle,
    pub tags: Seq<Seq<char>>,
    pub associated_with: Seq<Seq<char>>,
    pub relations: Seq<RelationView>,
    pub parent_id: Option<EntityId>,
    pub child_ids: Seq<EntityId>,
    pub session_id: Option<Seq<char>>,
    pub task_type: Option<Seq<char>>,
    pub related_guides: Seq<Seq<char>>,
    pub evidence: Seq<EvidenceView>,
    pub access_count: u64,
    pub last_accessed_at: Option<Instant>,
    pub positive_feedback: u64,
    pub negative_feedback: u64,
    pub negative_hits: u64,
    pub refinement_count: u64,
    pub distill_candidate: bool,
    pub entity_revision: EntityRevision,
    pub document_revision: DocumentRevision,
    pub eligibility_revision: EligibilityRevision,
    pub created_at: Instant,
    pub updated_at: Instant,
    pub raw_created: Option<Seq<char>>,
    pub unknown_fields: Seq<UnknownFieldView>,
}

impl View for Memory {
    type V = MemoryView;

    open spec fn view(&self) -> MemoryView {
        MemoryView {
            id: self.id,
            external_alias: opt_view(self.external_alias),
            title: self.title@,
            fragment: self.fragment@,
            description: self.description@,
            fragment_type: self.fragment_type,
            project: opt_view(self.project),
            source: self.source,
            confidence: self.confidence,
            quality_score: self.quality_score,
            lifecycle: self.lifecycle,
            tags: views(self.tags@),
            associated_with: views(self.associated_with@),
            relations: views(self.relations@),
            parent_id: self.parent_id,
            child_ids: self.child_ids@,
            session_id: opt_view(self.session_id),
            task_type: opt_view(self.task_type),
            related_guides: views(self.related_guides@),
            evidence: views(self.evidence@),
            access_count: self.access_count,
            last_accessed_at: self.last_accessed_at,
            positive_feedback: self.positive_feedback,
            negative_feedback: self.negative_feedback,
            negative_hits: self.negative_hits,
            refinement_count: self.refinement_count,
            distill_candidate: self.distill_candidate,
            entity_revision: self.entity_revision,
            document_revision: self.document_revision,
            eligibility_revision: self.eligibility_revision,
            created_at: self.created_at,
            updated_at: self.updated_at,
            raw_created: opt_view(self.raw_created),
            unknown_fields: views(self.unknown_fields@),
        }
    }
}

impl Clone for Memory {
    fn clone(&self) -> (r: Self)
        ensures
            r@ == self@,
    {
        Memory {
            id: self.id,
            external_alias: self.external_alias.clone(),
            title: self.title.clone(),
            fragment: self.fragment.clone(),
            description: self.description.clone(),
            fragment_type: self.fragment_type,
            project: self.project.clone(),
            source: self.source,
            confidence: self.confidence,
            quality_score: self.quality_score,
            lifecycle: self.lifecycle,
            tags: clone_all(&self.tags),
            associated_with: clone_all(&self.associated_with),
            relations: clone_all(&self.relations),
            parent_id: self.parent_id,
            child_ids: clone_ids(&self.child_ids),
            session_id: self.session_id.clone(),
            task_type: self.task_type.clone(),
            related_guides: clone_all(&self.related_guides),
            evidence: clone_all(&self.evidence),
            access_count: self.access_count,
            last_accessed_at: self.last_accessed_at,
            positive_feedback: self.positive_feedback,
            negative_feedback: self.negative_feedback,
            negative_hits: self.negative_hits,
            refinement_count: self.refinement_count,
            distill_candidate: self.distill_candidate,
            entity_revision: self.entity_revision,
            document_revision: self.document_revision,
            eligibility_revision: self.eligibility_revision,
            created_at: self.created_at,
            updated_at: self.updated_at,
            raw_created: self.raw_created.clone(),
            unknown_fields: clone_all(&self.unknown_fields),
        }
    }
}

impl MemoryView {
    /// The memory after its content changed.
    pub open spec fn document_advanced(self) -> MemoryView {
        MemoryView {
            document_revision: self.document_revision.succ(),
            entity_revision: self.entity_revision.succ(),
            ..self
        }
    }

    /// The memory after what decides on its recall changed.
    pub open spec fn eligibility_advanced(self) -> MemoryView {
        MemoryView { eligibility_revision: self.eligibility_revision.succ(), ..self }
    }

    /// Whether every counter and revision can still be stepped `n` times.
    pub open spec fn room(self, n: int) -> bool {
        &&& self.access_count + n <= u64::MAX
        &&& self.positive_feedback + n <= u64::MAX
        &&& self.negative_feedback + n <= u64::MAX
        &&& self.negative_hits + n <= u64::MAX
        &&& self.entity_revision.0 + n <= u64::MAX
        &&& self.document_revision.0 + n <= u64::MAX
        &&& self.eligibility_revision.0 + n <= u64::MAX
    }
}

impl Memory {
    pub fn advance_document(&mut self)
        requires
            old(self).document_revision.0 < u64::MAX,
            old(self).entity_revision.0 < u64::MAX,
        ensures
            final(self)@ == old(self)@.document_advanced(),
    {
        self.document_revision = self.document_revision.next();
        self.entity_revision = self.entity_revision.next();
    }

    pub fn advance_eligibility(&mut self)
        requires
            old(self).eligibility_revision.0 < u64::MAX,
        ensures
            final(self)@ == old(self)@.eligibility_advanced(),
    {
        self.eligibility_revision = self.eligibility_revision.next();
    }
}

/// A memory that was moved out of the live set.
#[derive(Debug, PartialEq)]
pub struct ArchivedFragment {
    pub id: EntityId,
    pub legacy_id: Option<ExternalAlias>,
    pub title: String,
    pub fragment: String,
    pub description: Option<String>,
    pub fragment_type: FragmentType,
    pub project: Option<String>,
    pub confidence: Score,
    pub source: MemorySource,
    pub tags: Vec<String>,
    pub created_at: Option<Instant>,
    pub heat: Option<Score>,
    pub archived_at: Instant,
}

/// The content of an archived memory.
#[verifier::ext_equal]
pub struct ArchivedFragmentView {
    pub id: EntityId,
    pub legacy_id: Option<Seq<char>>,
    pub title: Seq<char>,
    pub fragment: Seq<char>,
    pub description: Option<Seq<char>>,
    pub fragment_type: FragmentType,
    pub project: Option<Seq<char>>,
    pub confidence: Score,
    pub source: MemorySource,
    pub tags: Seq<Seq<char>>,
    pub created_at: Option<Instant>,
    pub heat: Option<Score>,
    pub archived_at: Instant,
}

impl View for ArchivedFragment {
    type V = ArchivedFragmentView;

    open spec fn view(&self) -> ArchivedFragmentView {
        ArchivedFragmentView {
            id: self.id,
            legacy_id: opt_view(self.legacy_id),
            title: self.title@,
            fragment: self.fragment@,
            description: opt_view(self.description),
            fragment_type: self.fragment_type,
            project: opt_view(self.project),
            confidence: self.confidence,
            source: self.source,
            tags: views(self.tags@),
            created_at: self.created_at,
            heat: self.heat,
            archived_at: self.archived_at,
        }
    }
}

impl Clone for ArchivedFragment {
    fn clone(&self) -> (r: Self)
        ensures
            r@ == self@,
    {
        ArchivedFragment {
            id: self.id,
            legacy_id: self.legacy_id.clone(),
            title: self.title.clone(),
            fragment: self.fragment.clone(),
            description: self.description.clone(),
            fragment_type: self.fragment_type,
            project: self.project.clone(),
            confidence: self.confidence,
            source: self.source,
            tags: clone_all(&self.tags),
            created_at: self.created_at,
            heat: self.heat,
            archived_at: self.archived_at,
        }
    }
}

/// A former state of a memory's content.
#[derive(Debug, PartialEq)]
pub struct FragmentHistory {
    pub id: EntityId,
    pub memory_id: EntityId,
    pub title: String,
    pub fragment: String,
    pub description: Option<String>,
    pub confidence: Score,
    pub fragment_type: FragmentType,
    pub changed_at: Instant,
}

/// The content of a former state.
#[verifier::ext_equal]
pub struct FragmentHistoryView {
    pub id: EntityId,
    pub memory_id: EntityId,
    pub title: Seq<char>,
    pub fragment: Seq<char>,
    pub description: Option<Seq<char>>,
    pub confidence: Score,
    pub fragment_type: FragmentType,
    pub changed_at: Instant,
}

impl View for FragmentHistory {
    type V = FragmentHistoryView;

    open spec fn view(&self) -> FragmentHistoryView {
        FragmentHistoryView {
            id: self.id,
            memory_id: self.memory_id,
            title: self.title@,
            fragment: self.fragment@,
            description: opt_view(self.description),
            confidence: self.confidence,
            fragment_type: self.fragment_type,
            changed_at: self.changed_at,
        }
    }
}

impl Clone for FragmentHistory {
    fn clone(&self) -> (r: Self)
        ensures
            r@ == self@,
    {
        FragmentHistory {
            id: self.id,
            memory_id: self.memory_id,
            title: self.title.clone(),
            fragment: self.fragment.clone(),
            description: self.description.clone(),
            confidence: self.confidence,
            fragment_type: self.fragment_type,
            changed_at: self.changed_at,
        }
    }
}

} // verus!
