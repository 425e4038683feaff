//! The structured part of what the tools answer.

use crate::compatibility::lemma::intelligence::{
    ConflictPair, ConflictPairView, ProactiveSuggestion, ProactiveSuggestionView, ProjectProgress,
    ProjectProgressView,
};
use crate::domain::score::Score;
use crate::signed::Signed;
use crate::text::{opt_view, views};
use vstd::prelude::*;

verus! {

/// A memory in a list. Its text and its time of creation come with details only.
#[derive(Debug)]
pub struct FragmentEntry {
    pub id: String,
    pub title: String,
    pub description: Option<String>,
    pub kind: String,
    pub confidence: Score,
    pub project: Option<String>,
    pub fragment: Option<String>,
    pub created: Option<u64>,
}

/// The content of this record.
#[verifier::ext_equal]
pub struct FragmentEntryView {
    pub id: Seq<char>,
    pub title: Seq<char>,
    pub description: Option<Seq<char>>,
    pub kind: Seq<char>,
    pub confidence: Score,
    pub project: Option<Seq<char>>,
    pub fragment: Option<Seq<char>>,
    pub created: Option<u64>,
}

impl View for FragmentEntry {
    type V = FragmentEntryView;

    open spec fn view(&self) -> FragmentEntryView {
        FragmentEntryView {
            id: self.id@,
            title: self.title@,
            description: opt_view(self.description),
            kind: self.kind@,
            confidence: self.confidence,
            project: opt_view(self.project),
            fragment: opt_view(self.fragment),
            created: self.created,
        }
    }
}

/// A memory that was reached over edges.
#[derive(Debug)]
pub struct GraphEntry {
    pub id: String,
    pub title: String,
    pub depth: u32,
}

/// The content of this record.
#[verifier::ext_equal]
pub struct GraphEntryView {
    pub id: Seq<char>,
    pub title: Seq<char>,
    pub depth: u32,
}

impl View for GraphEntry {
    type V = GraphEntryView;

    open spec fn view(&self) -> GraphEntryView {
        GraphEntryView {
            id: self.id@,
            title: self.title@,
            depth: self.depth,
        }
    }
}

/// Evidence that a memory cites.
#[derive(Debug)]
pub struct Citation {
    pub file: String,
    pub symbol: Option<String>,
    pub recorded_at: String,
}

/// The content of this record.
#[verifier::ext_equal]
pub struct CitationView {
    pub file: Seq<char>,
    pub symbol: Option<Seq<char>>,
    pub recorded_at: Seq<char>,
}

impl View for Citation {
    type V = CitationView;

    open spec fn view(&self) -> CitationView {
        CitationView {
            file: self.file@,
            symbol: opt_view(self.symbol),
            recorded_at: self.recorded_at@,
        }
    }
}

/// Why a memory was recalled, and where it comes from.
#[derive(Debug)]
pub struct ExplainedItem {
    pub id: String,
    pub method: String,
    pub reason: String,
    pub rank: Option<u64>,
    pub depth: Option<u32>,
    pub score_kind: Option<String>,
    pub graph_root: Option<String>,
    pub recorded_source: String,
    pub created_at: String,
    pub project: Option<String>,
    pub session_id: Option<String>,
    pub confidence: Score,
    pub last_accessed: Option<String>,
    pub citations: Vec<Citation>,
    pub status: String,
    pub citations_truncated: bool,
}

/// The content of this record.
#[verifier::ext_equal]
pub struct ExplainedItemView {
    pub id: Seq<char>,
    pub method: Seq<char>,
    pub reason: Seq<char>,
    pub rank: Option<u64>,
    pub depth: Option<u32>,
    pub score_kind: Option<Seq<char>>,
    pub graph_root: Option<Seq<char>>,
    pub recorded_source: Seq<char>,
    pub created_at: Seq<char>,
    pub project: Option<Seq<char>>,
    pub session_id: Option<Seq<char>>,
    pub confidence: Score,
    pub last_accessed: Option<Seq<char>>,
    pub citations: Seq<CitationView>,
    pub status: Seq<char>,
    pub citations_truncated: bool,
}

impl View for ExplainedItem {
    type V = ExplainedItemView;

    open spec fn view(&self) -> ExplainedItemView {
        ExplainedItemView {
            id: self.id@,
            method: self.method@,
            reason: self.reason@,
            rank: self.rank,
            depth: self.depth,
            score_kind: opt_view(self.score_kind),
            graph_root: opt_view(self.graph_root),
            recorded_source: self.recorded_source@,
            created_at: self.created_at@,
            project: opt_view(self.project),
            session_id: opt_view(self.session_id),
            confidence: self.confidence,
            last_accessed: opt_view(self.last_accessed),
            citations: views(self.citations@),
            status: self.status@,
            citations_truncated: self.citations_truncated,
        }
    }
}

/// Why the memories of a call were recalled.
#[derive(Debug)]
pub struct Explanation {
    pub mode: String,
    pub project: Option<String>,
    pub items: Vec<ExplainedItem>,
}

/// The content of this record.
#[verifier::ext_equal]
pub struct ExplanationView {
    pub mode: Seq<char>,
    pub project: Option<Seq<char>>,
    pub items: Seq<ExplainedItemView>,
}

impl View for Explanation {
    type V = ExplanationView;

    open spec fn view(&self) -> ExplanationView {
        ExplanationView {
            mode: self.mode@,
            project: opt_view(self.project),
            items: views(self.items@),
        }
    }
}

/// What `memory_read` gives.
#[derive(Debug)]
pub struct ReadData {
    pub count: usize,
    pub total: Option<usize>,
    pub fragments: Vec<FragmentEntry>,
    pub has_more: bool,
    pub next_offset: Option<usize>,
    pub related_graph: Vec<GraphEntry>,
    pub recall_explanation: Option<Explanation>,
}

/// The content of this record.
#[verifier::ext_equal]
pub struct ReadDataView {
    pub count: usize,
    pub total: Option<usize>,
    pub fragments: Seq<FragmentEntryView>,
    pub has_more: bool,
    pub next_offset: Option<usize>,
    pub related_graph: Seq<GraphEntryView>,
    pub recall_explanation: Option<ExplanationView>,
}

impl View for ReadData {
    type V = ReadDataView;

    open spec fn view(&self) -> ReadDataView {
        ReadDataView {
            count: self.count,
            total: self.total,
            fragments: views(self.fragments@),
            has_more: self.has_more,
            next_offset: self.next_offset,
            related_graph: views(self.related_graph@),
            recall_explanation: opt_view(self.recall_explanation),
        }
    }
}

/// How often something occurs.
#[derive(Debug)]
pub struct Tally {
    pub name: String,
    pub count: u64,
}

/// The content of this record.
#[verifier::ext_equal]
pub struct TallyView {
    pub name: Seq<char>,
    pub count: u64,
}

impl View for Tally {
    type V = TallyView;

    open spec fn view(&self) -> TallyView {
        TallyView {
            name: self.name@,
            count: self.count,
        }
    }
}

/// What `memory_stats` gives.
#[derive(Debug)]
pub struct StatsData {
    pub total: usize,
    pub average: Signed,
    pub by_source: Vec<Tally>,
    pub by_project: Vec<Tally>,
    pub low_confidence: Option<u64>,
    pub high_confidence: Option<u64>,
}

/// The content of this record.
#[verifier::ext_equal]
pub struct StatsDataView {
    pub total: usize,
    pub average: Signed,
    pub by_source: Seq<TallyView>,
    pub by_project: Seq<TallyView>,
    pub low_confidence: Option<u64>,
    pub high_confidence: Option<u64>,
}

impl View for StatsData {
    type V = StatsDataView;

    open spec fn view(&self) -> StatsDataView {
        StatsDataView {
            total: self.total,
            average: self.average,
            by_source: views(self.by_source@),
            by_project: views(self.by_project@),
            low_confidence: self.low_confidence,
            high_confidence: self.high_confidence,
        }
    }
}

/// What `memory_audit` gives.
#[derive(Debug)]
pub struct AuditData {
    pub total_fragments: usize,
    pub issues: Vec<String>,
}

/// The content of this record.
#[verifier::ext_equal]
pub struct AuditDataView {
    pub total_fragments: usize,
    pub issues: Seq<Seq<char>>,
}

impl View for AuditData {
    type V = AuditDataView;

    open spec fn view(&self) -> AuditDataView {
        AuditDataView {
            total_fragments: self.total_fragments,
            issues: views(self.issues@),
        }
    }
}

/// A memory in the library.
#[derive(Debug)]
pub struct LibraryEntry {
    pub id: String,
    pub title: String,
    pub kind: String,
    pub project: Option<String>,
    pub confidence: Score,
    pub age_days: u64,
    pub access_count: u64,
    pub positive_feedback: u64,
    pub negative_feedback: u64,
    pub distill_candidate: bool,
    pub fragment_preview: String,
}

/// The content of this record.
#[verifier::ext_equal]
pub struct LibraryEntryView {
    pub id: Seq<char>,
    pub title: Seq<char>,
    pub kind: Seq<char>,
    pub project: Option<Seq<char>>,
    pub confidence: Score,
    pub age_days: u64,
    pub access_count: u64,
    pub positive_feedback: u64,
    pub negative_feedback: u64,
    pub distill_candidate: bool,
    pub fragment_preview: Seq<char>,
}

impl View for LibraryEntry {
    type V = LibraryEntryView;

    open spec fn view(&self) -> LibraryEntryView {
        LibraryEntryView {
            id: self.id@,
            title: self.title@,
            kind: self.kind@,
            project: opt_view(self.project),
            confidence: self.confidence,
            age_days: self.age_days,
            access_count: self.access_count,
            positive_feedback: self.positive_feedback,
            negative_feedback: self.negative_feedback,
            distill_candidate: self.distill_candidate,
            fragment_preview: self.fragment_preview@,
        }
    }
}

/// A guide in the library.
#[derive(Debug)]
pub struct LibraryGuide {
    pub name: String,
    pub category: String,
    pub usage_count: u32,
    pub success_count: u32,
    pub failure_count: u32,
    pub last_used: Option<u64>,
}

/// The content of this record.
#[verifier::ext_equal]
pub struct LibraryGuideView {
    pub name: Seq<char>,
    pub category: Seq<char>,
    pub usage_count: u32,
    pub success_count: u32,
    pub failure_count: u32,
    pub last_used: Option<u64>,
}

impl View for LibraryGuide {
    type V = LibraryGuideView;

    open spec fn view(&self) -> LibraryGuideView {
        LibraryGuideView {
            name: self.name@,
            category: self.category@,
            usage_count: self.usage_count,
            success_count: self.success_count,
            failure_count: self.failure_count,
            last_used: self.last_used,
        }
    }
}

/// A memory with many edges.
#[derive(Debug)]
pub struct Hub {
    pub id: String,
    pub title: String,
    pub count: u64,
}

/// The content of this record.
#[verifier::ext_equal]
pub struct HubView {
    pub id: Seq<char>,
    pub title: Seq<char>,
    pub count: u64,
}

impl View for Hub {
    type V = HubView;

    open spec fn view(&self) -> HubView {
        HubView {
            id: self.id@,
            title: self.title@,
            count: self.count,
        }
    }
}

/// A memory that was never read and is old.
#[derive(Debug)]
pub struct StaleEntry {
    pub id: String,
    pub title: String,
    pub age_days: u64,
    pub confidence: Score,
}

/// The content of this record.
#[verifier::ext_equal]
pub struct StaleEntryView {
    pub id: Seq<char>,
    pub title: Seq<char>,
    pub age_days: u64,
    pub confidence: Score,
}

impl View for StaleEntry {
    type V = StaleEntryView;

    open spec fn view(&self) -> StaleEntryView {
        StaleEntryView {
            id: self.id@,
            title: self.title@,
            age_days: self.age_days,
            confidence: self.confidence,
        }
    }
}

/// A memory that may become a guide.
#[derive(Debug)]
pub struct DistillEntry {
    pub id: String,
    pub title: String,
    pub kind: String,
}

/// The content of this record.
#[verifier::ext_equal]
pub struct DistillEntryView {
    pub id: Seq<char>,
    pub title: Seq<char>,
    pub kind: Seq<char>,
}

impl View for DistillEntry {
    type V = DistillEntryView;

    open spec fn view(&self) -> DistillEntryView {
        DistillEntryView {
            id: self.id@,
            title: self.title@,
            kind: self.kind@,
        }
    }
}

/// The edges of the library in figures.
#[derive(Debug)]
pub struct RelationFigures {
    pub total: usize,
    pub by_type: Vec<Tally>,
    pub isolated_fragment_ids: Vec<String>,
    pub hub_fragments: Vec<Hub>,
}

/// The content of this record.
#[verifier::ext_equal]
pub struct RelationFiguresView {
    pub total: usize,
    pub by_type: Seq<TallyView>,
    pub isolated_fragment_ids: Seq<Seq<char>>,
    pub hub_fragments: Seq<HubView>,
}

impl View for RelationFigures {
    type V = RelationFiguresView;

    open spec fn view(&self) -> RelationFiguresView {
        RelationFiguresView {
            total: self.total,
            by_type: views(self.by_type@),
            isolated_fragment_ids: views(self.isolated_fragment_ids@),
            hub_fragments: views(self.hub_fragments@),
        }
    }
}

/// The condition of the library.
#[derive(Debug)]
pub struct Signals {
    pub confidence_distribution: Vec<Tally>,
    pub age_distribution: Vec<Tally>,
    pub stale_fragments: Vec<StaleEntry>,
    pub distill_candidates: Vec<DistillEntry>,
    pub never_accessed_count: u64,
}

/// The content of this record.
#[verifier::ext_equal]
pub struct SignalsView {
    pub confidence_distribution: Seq<TallyView>,
    pub age_distribution: Seq<TallyView>,
    pub stale_fragments: Seq<StaleEntryView>,
    pub distill_candidates: Seq<DistillEntryView>,
    pub never_accessed_count: u64,
}

impl View for Signals {
    type V = SignalsView;

    open spec fn view(&self) -> SignalsView {
        SignalsView {
            confidence_distribution: views(self.confidence_distribution@),
            age_distribution: views(self.age_distribution@),
            stale_fragments: views(self.stale_fragments@),
            distill_candidates: views(self.distill_candidates@),
            never_accessed_count: self.never_accessed_count,
        }
    }
}

/// What `memory_library` gives.
#[derive(Debug)]
pub struct LibraryData {
    pub fragments: Vec<LibraryEntry>,
    pub guides: Vec<LibraryGuide>,
    pub relations: RelationFigures,
    pub signals: Option<Signals>,
    pub suggestions: Vec<String>,
    pub fragments_total: usize,
    pub has_more: bool,
    pub next_offset: usize,
}

/// The content of this record.
#[verifier::ext_equal]
pub struct LibraryDataView {
    pub fragments: Seq<LibraryEntryView>,
    pub guides: Seq<LibraryGuideView>,
    pub relations: RelationFiguresView,
    pub signals: Option<SignalsView>,
    pub suggestions: Seq<Seq<char>>,
    pub fragments_total: usize,
    pub has_more: bool,
    pub next_offset: usize,
}

impl View for LibraryData {
    type V = LibraryDataView;

    open spec fn view(&self) -> LibraryDataView {
        LibraryDataView {
            fragments: views(self.fragments@),
            guides: views(self.guides@),
            relations: self.relations@,
            signals: opt_view(self.signals),
            suggestions: views(self.suggestions@),
            fragments_total: self.fragments_total,
            has_more: self.has_more,
            next_offset: self.next_offset,
        }
    }
}

/// A memory that a search found.
#[derive(Debug)]
pub struct SearchEntry {
    pub id: String,
    pub title: String,
    pub score: Score,
    pub fragment_preview: String,
}

/// The content of this record.
#[verifier::ext_equal]
pub struct SearchEntryView {
    pub id: Seq<char>,
    pub title: Seq<char>,
    pub score: Score,
    pub fragment_preview: Seq<char>,
}

impl View for SearchEntry {
    type V = SearchEntryView;

    open spec fn view(&self) -> SearchEntryView {
        SearchEntryView {
            id: self.id@,
            title: self.title@,
            score: self.score,
            fragment_preview: self.fragment_preview@,
        }
    }
}

/// What `semantic_search` gives.
#[derive(Debug)]
pub struct SearchData {
    pub count: usize,
    pub total: usize,
    pub results: Vec<SearchEntry>,
    pub has_more: bool,
    pub next_offset: Option<usize>,
}

/// The content of this record.
#[verifier::ext_equal]
pub struct SearchDataView {
    pub count: usize,
    pub total: usize,
    pub results: Seq<SearchEntryView>,
    pub has_more: bool,
    pub next_offset: Option<usize>,
}

impl View for SearchData {
    type V = SearchDataView;

    open spec fn view(&self) -> SearchDataView {
        SearchDataView {
            count: self.count,
            total: self.total,
            results: views(self.results@),
            has_more: self.has_more,
            next_offset: self.next_offset,
        }
    }
}

/// A guide in a list.
#[derive(Debug)]
pub struct GuideEntry {
    pub guide: String,
    pub category: String,
    pub description: String,
    pub usage_count: u32,
    pub last_used: Option<String>,
    pub success_count: u32,
    pub failure_count: u32,
    pub contexts: Vec<String>,
    pub learnings: Vec<String>,
}

/// The content of this record.
#[verifier::ext_equal]
pub struct GuideEntryView {
    pub guide: Seq<char>,
    pub category: Seq<char>,
    pub description: Seq<char>,
    pub usage_count: u32,
    pub last_used: Option<Seq<char>>,
    pub success_count: u32,
    pub failure_count: u32,
    pub contexts: Seq<Seq<char>>,
    pub learnings: Seq<Seq<char>>,
}

impl View for GuideEntry {
    type V = GuideEntryView;

    open spec fn view(&self) -> GuideEntryView {
        GuideEntryView {
            guide: self.guide@,
            category: self.category@,
            description: self.description@,
            usage_count: self.usage_count,
            last_used: opt_view(self.last_used),
            success_count: self.success_count,
            failure_count: self.failure_count,
            contexts: views(self.contexts@),
            learnings: views(self.learnings@),
        }
    }
}

/// The session that is going on.
#[derive(Debug)]
pub struct ActiveSession {
    pub tool_calls: usize,
    pub technologies: Vec<String>,
    pub guides_used: Vec<String>,
}

/// The content of this record.
#[verifier::ext_equal]
pub struct ActiveSessionView {
    pub tool_calls: usize,
    pub technologies: Seq<Seq<char>>,
    pub guides_used: Seq<Seq<char>>,
}

impl View for ActiveSession {
    type V = ActiveSessionView;

    open spec fn view(&self) -> ActiveSessionView {
        ActiveSessionView {
            tool_calls: self.tool_calls,
            technologies: views(self.technologies@),
            guides_used: views(self.guides_used@),
        }
    }
}

/// A session that has ended.
#[derive(Debug)]
pub struct RecentSession {
    pub id: String,
    pub tool_calls: usize,
    pub technologies: Vec<String>,
}

/// The content of this record.
#[verifier::ext_equal]
pub struct RecentSessionView {
    pub id: Seq<char>,
    pub tool_calls: usize,
    pub technologies: Seq<Seq<char>>,
}

impl View for RecentSession {
    type V = RecentSessionView;

    open spec fn view(&self) -> RecentSessionView {
        RecentSessionView {
            id: self.id@,
            tool_calls: self.tool_calls,
            technologies: views(self.technologies@),
        }
    }
}

/// The structured part of an answer.
#[derive(Debug)]
#[allow(inconsistent_fields)]
pub enum ToolData {
    Read(ReadData),
    Added { id: String },
    Changed { id: String },
    Judged { id: String, confidence: Score },
    Merged { id: String, merged_ids: Vec<String> },
    Related { relation: String },
    Stats(StatsData),
    Audit(AuditData),
    Library(LibraryData),
    Search(SearchData),
    GuideNames { names: Vec<String> },
    GuideDetail { guide: Option<GuideEntry> },
    Guides { guides: Vec<GuideEntry> },
    GuideDone { guide: String },
    Practised { guide: String, usage_count: u32 },
    Distilled { guide: String, memory_id: String },
    GuidesMerged { guide: String, merged: Vec<String> },
    SessionStarted { session_id: String, guides: Vec<String>, preloaded_memories: Vec<String> },
    AttemptRecorded { attempt_id: String },
    SessionEnded { suggestions: Vec<String> },
    SessionFigures { active: Option<ActiveSession>, recent: Vec<RecentSession> },
    SuggestionResolved { id: u64 },
    Conflicts { conflicts: Vec<ConflictPair> },
    Analysis { analyzed_memories: usize, analyzed_guides: usize, suggestions: Vec<ProactiveSuggestion> },
    Projects { projects: Vec<ProjectProgress> },
    Project(ProjectProgress),
}

/// The content of it.
#[verifier::ext_equal]
#[allow(inconsistent_fields)]
pub enum ToolDataView {
    Read(ReadDataView),
    Added { id: Seq<char> },
    Changed { id: Seq<char> },
    Judged { id: Seq<char>, confidence: Score },
    Merged { id: Seq<char>, merged_ids: Seq<Seq<char>> },
    Related { relation: Seq<char> },
    Stats(StatsDataView),
    Audit(AuditDataView),
    Library(LibraryDataView),
    Search(SearchDataView),
    GuideNames { names: Seq<Seq<char>> },
    GuideDetail { guide: Option<GuideEntryView> },
    Guides { guides: Seq<GuideEntryView> },
    GuideDone { guide: Seq<char> },
    Practised { guide: Seq<char>, usage_count: u32 },
    Distilled { guide: Seq<char>, memory_id: Seq<char> },
    GuidesMerged { guide: Seq<char>, merged: Seq<Seq<char>> },
    SessionStarted { session_id: Seq<char>, guides: Seq<Seq<char>>, preloaded_memories: Seq<Seq<char>> },
    AttemptRecorded { attempt_id: Seq<char> },
    SessionEnded { suggestions: Seq<Seq<char>> },
    SessionFigures { active: Option<ActiveSessionView>, recent: Seq<RecentSessionView> },
    SuggestionResolved { id: u64 },
    Conflicts { conflicts: Seq<ConflictPairView> },
    Analysis { analyzed_memories: usize, analyzed_guides: usize, suggestions: Seq<ProactiveSuggestionView> },
    Projects { projects: Seq<ProjectProgressView> },
    Project(ProjectProgressView),
}

impl View for ToolData {
    type V = ToolDataView;

    open spec fn view(&self) -> ToolDataView {
        match *self {
            ToolData::Read(x) => ToolDataView::Read(x@),
            ToolData::Added { id } => ToolDataView::Added {
                id: id@,
            },
            ToolData::Changed { id } => ToolDataView::Changed {
                id: id@,
            },
            ToolData::Judged { id, confidence } => ToolDataView::Judged {
                id: id@,
                confidence: confidence,
            },
            ToolData::Merged { id, merged_ids } => ToolDataView::Merged {
                id: id@,
                merged_ids: views(merged_ids@),
            },
            ToolData::Related { relation } => ToolDataView::Related {
                relation: relation@,
            },
            ToolData::Stats(x) => ToolDataView::Stats(x@),
            ToolData::Audit(x) => ToolDataView::Audit(x@),
            ToolData::Library(x) => ToolDataView::Library(x@),
            ToolData::Search(x) => ToolDataView::Search(x@),
            ToolData::GuideNames { names } => ToolDataView::GuideNames {
                names: views(names@),
            },
            ToolData::GuideDetail { guide } => ToolDataView::GuideDetail {
                guide: opt_view(guide),
            },
            ToolData::Guides { guides } => ToolDataView::Guides {
                guides: views(guides@),
            },
            ToolData::GuideDone { guide } => ToolDataView::GuideDone {
                guide: guide@,
            },
            ToolData::Practised { guide, usage_count } => ToolDataView::Practised {
                guide: guide@,
                usage_count: usage_count,
            },
            ToolData::Distilled { guide, memory_id } => ToolDataView::Distilled {
                guide: guide@,
                memory_id: memory_id@,
            },
            ToolData::GuidesMerged { guide, merged } => ToolDataView::GuidesMerged {
                guide: guide@,
                merged: views(merged@),
            },
            ToolData::SessionStarted { session_id, guides, preloaded_memories } => ToolDataView::SessionStarted {
                session_id: session_id@,
                guides: views(guides@),
                preloaded_memories: views(preloaded_memories@),
            },
            ToolData::AttemptRecorded { attempt_id } => ToolDataView::AttemptRecorded {
                attempt_id: attempt_id@,
            },
            ToolData::SessionEnded { suggestions } => ToolDataView::SessionEnded {
                suggestions: views(suggestions@),
            },
            ToolData::SessionFigures { active, recent } => ToolDataView::SessionFigures {
                active: opt_view(active),
                recent: views(recent@),
            },
            ToolData::SuggestionResolved { id } => ToolDataView::SuggestionResolved {
                id: id,
            },
            ToolData::Conflicts { conflicts } => ToolDataView::Conflicts {
                conflicts: views(conflicts@),
            },
            ToolData::Analysis { analyzed_memories, analyzed_guides, suggestions } => ToolDataView::Analysis {
                analyzed_memories: analyzed_memories,
                analyzed_guides: analyzed_guides,
                suggestions: views(suggestions@),
            },
            ToolData::Projects { projects } => ToolDataView::Projects {
                projects: views(projects@),
            },
            ToolData::Project(x) => ToolDataView::Project(x@),
        }
    }
}

} // verus!
