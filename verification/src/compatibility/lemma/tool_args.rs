//! The tools' names and their arguments.

use crate::domain::score::Score;
use crate::text::same;
use vstd::prelude::*;

verus! {

/// The tools.
#[derive(Debug, Clone, Copy, PartialEq, Eq, Hash, Structural)]
pub enum ToolName {
    MemoryRead,
    MemoryAdd,
    MemoryUpdate,
    MemoryFeedback,
    MemoryForget,
    MemoryMerge,
    MemoryRelate,
    MemoryStats,
    MemoryAudit,
    MemoryLibrary,
    SemanticSearch,
    GuideGet,
    GuidePractice,
    GuideCreate,
    GuideDistill,
    GuideUpdate,
    GuideForget,
    GuideMerge,
    SessionStart,
    SessionAttempt,
    SessionEnd,
    SessionStats,
    SuggestionRespond,
    ConflictScan,
    ProactiveAnalysis,
    ProjectAnalytics,
}

impl ToolName {
    /// The name of the value on the wire.
    pub open spec fn name(self) -> Seq<char> {
        match self {
            ToolName::MemoryRead => "memory_read"@,
            ToolName::MemoryAdd => "memory_add"@,
            ToolName::MemoryUpdate => "memory_update"@,
            ToolName::MemoryFeedback => "memory_feedback"@,
            ToolName::MemoryForget => "memory_forget"@,
            ToolName::MemoryMerge => "memory_merge"@,
            ToolName::MemoryRelate => "memory_relate"@,
            ToolName::MemoryStats => "memory_stats"@,
            ToolName::MemoryAudit => "memory_audit"@,
            ToolName::MemoryLibrary => "memory_library"@,
            ToolName::SemanticSearch => "semantic_search"@,
            ToolName::GuideGet => "guide_get"@,
            ToolName::GuidePractice => "guide_practice"@,
            ToolName::GuideCreate => "guide_create"@,
            ToolName::GuideDistill => "guide_distill"@,
            ToolName::GuideUpdate => "guide_update"@,
            ToolName::GuideForget => "guide_forget"@,
            ToolName::GuideMerge => "guide_merge"@,
            ToolName::SessionStart => "session_start"@,
            ToolName::SessionAttempt => "session_attempt"@,
            ToolName::SessionEnd => "session_end"@,
            ToolName::SessionStats => "session_stats"@,
            ToolName::SuggestionRespond => "suggestion_respond"@,
            ToolName::ConflictScan => "conflict_scan"@,
            ToolName::ProactiveAnalysis => "proactive_analysis"@,
            ToolName::ProjectAnalytics => "project_analytics"@,
        }
    }

    /// The value with a given name.
    pub open spec fn named(s: Seq<char>) -> Option<ToolName> {
        if s == "memory_read"@ {
            Some(ToolName::MemoryRead)
        } else if s == "memory_add"@ {
            Some(ToolName::MemoryAdd)
        } else if s == "memory_update"@ {
            Some(ToolName::MemoryUpdate)
        } else if s == "memory_feedback"@ {
            Some(ToolName::MemoryFeedback)
        } else if s == "memory_forget"@ {
            Some(ToolName::MemoryForget)
        } else if s == "memory_merge"@ {
            Some(ToolName::MemoryMerge)
        } else if s == "memory_relate"@ {
            Some(ToolName::MemoryRelate)
        } else if s == "memory_stats"@ {
            Some(ToolName::MemoryStats)
        } else if s == "memory_audit"@ {
            Some(ToolName::MemoryAudit)
        } else if s == "memory_library"@ {
            Some(ToolName::MemoryLibrary)
        } else if s == "semantic_search"@ {
            Some(ToolName::SemanticSearch)
        } else if s == "guide_get"@ {
            Some(ToolName::GuideGet)
        } else if s == "guide_practice"@ {
            Some(ToolName::GuidePractice)
        } else if s == "guide_create"@ {
            Some(ToolName::GuideCreate)
        } else if s == "guide_distill"@ {
            Some(ToolName::GuideDistill)
        } else if s == "guide_update"@ {
            Some(ToolName::GuideUpdate)
        } else if s == "guide_forget"@ {
            Some(ToolName::GuideForget)
        } else if s == "guide_merge"@ {
            Some(ToolName::GuideMerge)
        } else if s == "session_start"@ {
            Some(ToolName::SessionStart)
        } else if s == "session_attempt"@ {
            Some(ToolName::SessionAttempt)
        } else if s == "session_end"@ {
            Some(ToolName::SessionEnd)
        } else if s == "session_stats"@ {
            Some(ToolName::SessionStats)
        } else if s == "suggestion_respond"@ {
            Some(ToolName::SuggestionRespond)
        } else if s == "conflict_scan"@ {
            Some(ToolName::ConflictScan)
        } else if s == "proactive_analysis"@ {
            Some(ToolName::ProactiveAnalysis)
        } else if s == "project_analytics"@ {
            Some(ToolName::ProjectAnalytics)
        } else {
            None
        }
    }

    pub fn as_str(&self) -> (r: &'static str)
        ensures
            r@ == self.name(),
    {
        match self {
            ToolName::MemoryRead => "memory_read",
            ToolName::MemoryAdd => "memory_add",
            ToolName::MemoryUpdate => "memory_update",
            ToolName::MemoryFeedback => "memory_feedback",
            ToolName::MemoryForget => "memory_forget",
            ToolName::MemoryMerge => "memory_merge",
            ToolName::MemoryRelate => "memory_relate",
            ToolName::MemoryStats => "memory_stats",
            ToolName::MemoryAudit => "memory_audit",
            ToolName::MemoryLibrary => "memory_library",
            ToolName::SemanticSearch => "semantic_search",
            ToolName::GuideGet => "guide_get",
            ToolName::GuidePractice => "guide_practice",
            ToolName::GuideCreate => "guide_create",
            ToolName::GuideDistill => "guide_distill",
            ToolName::GuideUpdate => "guide_update",
            ToolName::GuideForget => "guide_forget",
            ToolName::GuideMerge => "guide_merge",
            ToolName::SessionStart => "session_start",
            ToolName::SessionAttempt => "session_attempt",
            ToolName::SessionEnd => "session_end",
            ToolName::SessionStats => "session_stats",
            ToolName::SuggestionRespond => "suggestion_respond",
            ToolName::ConflictScan => "conflict_scan",
            ToolName::ProactiveAnalysis => "proactive_analysis",
            ToolName::ProjectAnalytics => "project_analytics",
        }
    }

    pub fn parse(s: &str) -> (r: Option<Self>)
        ensures
            r == ToolName::named(s@),
    {
        if same(s, "memory_read") {
            Some(ToolName::MemoryRead)
        } else if same(s, "memory_add") {
            Some(ToolName::MemoryAdd)
        } else if same(s, "memory_update") {
            Some(ToolName::MemoryUpdate)
        } else if same(s, "memory_feedback") {
            Some(ToolName::MemoryFeedback)
        } else if same(s, "memory_forget") {
            Some(ToolName::MemoryForget)
        } else if same(s, "memory_merge") {
            Some(ToolName::MemoryMerge)
        } else if same(s, "memory_relate") {
            Some(ToolName::MemoryRelate)
        } else if same(s, "memory_stats") {
            Some(ToolName::MemoryStats)
        } else if same(s, "memory_audit") {
            Some(ToolName::MemoryAudit)
        } else if same(s, "memory_library") {
            Some(ToolName::MemoryLibrary)
        } else if same(s, "semantic_search") {
            Some(ToolName::SemanticSearch)
        } else if same(s, "guide_get") {
            Some(ToolName::GuideGet)
        } else if same(s, "guide_practice") {
            Some(ToolName::GuidePractice)
        } else if same(s, "guide_create") {
            Some(ToolName::GuideCreate)
        } else if same(s, "guide_distill") {
            Some(ToolName::GuideDistill)
        } else if same(s, "guide_update") {
            Some(ToolName::GuideUpdate)
        } else if same(s, "guide_forget") {
            Some(ToolName::GuideForget)
        } else if same(s, "guide_merge") {
            Some(ToolName::GuideMerge)
        } else if same(s, "session_start") {
            Some(ToolName::SessionStart)
        } else if same(s, "session_attempt") {
            Some(ToolName::SessionAttempt)
        } else if same(s, "session_end") {
            Some(ToolName::SessionEnd)
        } else if same(s, "session_stats") {
            Some(ToolName::SessionStats)
        } else if same(s, "suggestion_respond") {
            Some(ToolName::SuggestionRespond)
        } else if same(s, "conflict_scan") {
            Some(ToolName::ConflictScan)
        } else if same(s, "proactive_analysis") {
            Some(ToolName::ProactiveAnalysis)
        } else if same(s, "project_analytics") {
            Some(ToolName::ProjectAnalytics)
        } else {
            None
        }
    }
}

/// A value is read back from its name, and nothing but its name is read as it.
#[verifier::rlimit(40)]
pub proof fn law_tool_name_names(t: ToolName, s: Seq<char>)
    ensures
        ToolName::named(t.name()) == Some(t),
        ToolName::named(s) == Some(t) ==> s == t.name(),
{
    reveal_strlit("memory_read");
    reveal_strlit("memory_add");
    reveal_strlit("memory_update");
    reveal_strlit("memory_feedback");
    reveal_strlit("memory_forget");
    reveal_strlit("memory_merge");
    reveal_strlit("memory_relate");
    reveal_strlit("memory_stats");
    reveal_strlit("memory_audit");
    reveal_strlit("memory_library");
    reveal_strlit("semantic_search");
    reveal_strlit("guide_get");
    reveal_strlit("guide_practice");
    reveal_strlit("guide_create");
    reveal_strlit("guide_distill");
    reveal_strlit("guide_update");
    reveal_strlit("guide_forget");
    reveal_strlit("guide_merge");
    reveal_strlit("session_start");
    reveal_strlit("session_attempt");
    reveal_strlit("session_end");
    reveal_strlit("session_stats");
    reveal_strlit("suggestion_respond");
    reveal_strlit("conflict_scan");
    reveal_strlit("proactive_analysis");
    reveal_strlit("project_analytics");
    assert("memory_read"@.len() == 11);
    assert("memory_add"@.len() == 10);
    assert("memory_update"@.len() == 13);
    assert("memory_feedback"@.len() == 15);
    assert("memory_forget"@.len() == 13);
    assert("memory_merge"@.len() == 12);
    assert("memory_relate"@.len() == 13);
    assert("memory_stats"@.len() == 12);
    assert("memory_audit"@.len() == 12);
    assert("memory_library"@.len() == 14);
    assert("semantic_search"@.len() == 15);
    assert("guide_get"@.len() == 9);
    assert("guide_practice"@.len() == 14);
    assert("guide_create"@.len() == 12);
    assert("guide_distill"@.len() == 13);
    assert("guide_update"@.len() == 12);
    assert("guide_forget"@.len() == 12);
    assert("guide_merge"@.len() == 11);
    assert("session_start"@.len() == 13);
    assert("session_attempt"@.len() == 15);
    assert("session_end"@.len() == 11);
    assert("session_stats"@.len() == 13);
    assert("suggestion_respond"@.len() == 18);
    assert("conflict_scan"@.len() == 13);
    assert("proactive_analysis"@.len() == 18);
    assert("project_analytics"@.len() == 17);
    assert("guide_merge"@[0] == 'g');
    assert("memory_read"@[0] == 'm');
    assert("session_end"@[0] == 's');
    assert("memory_forget"@[7] == 'f');
    assert("memory_update"@[7] == 'u');
    assert("memory_relate"@[7] == 'r');
    assert("guide_distill"@[0] == 'g');
    assert("memory_update"@[0] == 'm');
    assert("memory_forget"@[0] == 'm');
    assert("memory_relate"@[0] == 'm');
    assert("session_start"@[0] == 's');
    assert("session_stats"@[0] == 's');
    assert("session_stats"@[11] == 't');
    assert("session_start"@[11] == 'r');
    assert("conflict_scan"@[0] == 'c');
    assert("semantic_search"@[0] == 's');
    assert("memory_feedback"@[0] == 'm');
    assert("session_attempt"@[0] == 's');
    assert("session_attempt"@[2] == 's');
    assert("semantic_search"@[2] == 'm');
    assert("memory_stats"@[7] == 's');
    assert("memory_merge"@[7] == 'm');
    assert("memory_audit"@[7] == 'a');
    assert("guide_create"@[0] == 'g');
    assert("memory_merge"@[0] == 'm');
    assert("memory_stats"@[0] == 'm');
    assert("memory_audit"@[0] == 'm');
    assert("guide_update"@[0] == 'g');
    assert("guide_update"@[6] == 'u');
    assert("guide_create"@[6] == 'c');
    assert("guide_forget"@[0] == 'g');
    assert("guide_forget"@[6] == 'f');
    assert("guide_practice"@[0] == 'g');
    assert("memory_library"@[0] == 'm');
    assert("proactive_analysis"@[0] == 'p');
    assert("suggestion_respond"@[0] == 's');
}

/// How a result is to be written.
#[derive(Debug, Clone, Copy, PartialEq, Eq, Default, Structural)]
pub enum ResponseFormat {
    #[default]
    Markdown,
    Json,
}

impl ResponseFormat {
    /// The format with a given name.
    pub open spec fn named(s: Seq<char>) -> Option<ResponseFormat> {
        if s == "markdown"@ {
            Some(ResponseFormat::Markdown)
        } else if s == "json"@ {
            Some(ResponseFormat::Json)
        } else {
            None
        }
    }

    pub fn parse(s: &str) -> (r: Option<Self>)
        ensures
            r == ResponseFormat::named(s@),
    {
        if same(s, "markdown") {
            Some(ResponseFormat::Markdown)
        } else if same(s, "json") {
            Some(ResponseFormat::Json)
        } else {
            None
        }
    }
}

/// The arguments of `memory_read`.
#[derive(Debug, Clone, Default, PartialEq)]
pub struct MemoryReadArgs {
    pub project: Option<String>,
    pub query: Option<String>,
    pub id: Option<String>,
    pub context: Option<String>,
    pub all: bool,
    pub ids: Option<Vec<String>>,
    pub min_confidence: Option<Score>,
    pub after_date: Option<String>,
    pub before_date: Option<String>,
    pub limit: Option<usize>,
    pub offset: Option<usize>,
    pub response_format: Option<ResponseFormat>,
    pub expand_graph: bool,
    pub explain: bool,
}

/// The arguments of `memory_add`.
#[derive(Debug, Clone, Default, PartialEq)]
pub struct MemoryAddArgs {
    pub fragment: String,
    pub title: Option<String>,
    pub description: Option<String>,
    pub project: Option<String>,
    pub source: Option<String>,
    pub confirm: bool,
    pub fragment_type: Option<String>,
    pub evidence: Option<MemoryEvidence>,
}

/// Evidence given with a new memory.
#[derive(Debug, Clone, PartialEq)]
pub struct MemoryEvidence {
    pub file: String,
    pub symbol: Option<String>,
    pub snippet: String,
}

/// The arguments of `memory_update`.
#[derive(Debug, Clone, Default, PartialEq)]
pub struct MemoryUpdateArgs {
    pub id: String,
    pub title: Option<String>,
    pub fragment: Option<String>,
    pub confidence: Option<Score>,
}

/// The arguments of `memory_feedback`.
#[derive(Debug, Clone, PartialEq)]
pub struct MemoryFeedbackArgs {
    pub id: String,
    pub useful: bool,
}

/// The arguments of `memory_forget`.
#[derive(Debug, Clone, Default, PartialEq)]
pub struct MemoryForgetArgs {
    pub id: String,
    pub consolidate: bool,
    pub invalidate: bool,
}

/// The arguments of `memory_merge`.
#[derive(Debug, Clone, PartialEq)]
pub struct MemoryMergeArgs {
    pub ids: Vec<String>,
    pub title: String,
    pub fragment: String,
    pub project: Option<String>,
    pub consolidate: bool,
}

/// The arguments of `memory_relate`.
#[derive(Debug, Clone, PartialEq)]
pub struct MemoryRelateArgs {
    pub source_id: String,
    pub target_id: String,
    pub relation_type: String,
    pub note: Option<String>,
}

/// The arguments of `memory_stats`.
#[derive(Debug, Clone, Default, PartialEq)]
pub struct MemoryStatsArgs {
    pub project: Option<String>,
    pub response_format: Option<ResponseFormat>,
}

/// The arguments of `memory_audit`.
#[derive(Debug, Clone, Default, PartialEq)]
pub struct MemoryAuditArgs {
    pub response_format: Option<ResponseFormat>,
}

/// The arguments of `memory_library`.
#[derive(Debug, Clone, Default, PartialEq)]
pub struct MemoryLibraryArgs {
    pub project: Option<String>,
    pub focus: Option<String>,
    pub limit: Option<usize>,
    pub offset: Option<usize>,
    pub response_format: Option<ResponseFormat>,
}

/// The arguments of `semantic_search`.
#[derive(Debug, Clone, PartialEq)]
pub struct SemanticSearchArgs {
    pub query: String,
    pub project: Option<String>,
    pub top_k: Option<usize>,
    pub offset: Option<usize>,
    pub hybrid: bool,
    pub explain: bool,
    pub response_format: Option<ResponseFormat>,
}

/// The arguments of `guide_get`.
#[derive(Debug, Clone, Default, PartialEq)]
pub struct GuideGetArgs {
    pub category: Option<String>,
    pub guide: Option<String>,
    pub task: Option<String>,
    pub response_format: Option<ResponseFormat>,
}

/// The arguments of `guide_practice`.
#[derive(Debug, Clone, Default, PartialEq)]
pub struct GuidePracticeArgs {
    pub guide: String,
    pub category: String,
    pub description: Option<String>,
    pub contexts: Vec<String>,
    pub learnings: Vec<String>,
    pub outcome: Option<String>,
}

/// The arguments of `guide_create`.
#[derive(Debug, Clone, Default, PartialEq)]
pub struct GuideCreateArgs {
    pub guide: String,
    pub category: String,
    pub description: String,
    pub contexts: Vec<String>,
    pub learnings: Vec<String>,
}

/// The arguments of `guide_distill`.
#[derive(Debug, Clone, Default, PartialEq)]
pub struct GuideDistillArgs {
    pub memory_id: String,
    pub guide: String,
    pub category: Option<String>,
}

/// The arguments of `guide_update`.
#[derive(Debug, Clone, Default, PartialEq)]
pub struct GuideUpdateArgs {
    pub guide: String,
    pub new_name: Option<String>,
    pub category: Option<String>,
    pub description: Option<String>,
    pub add_anti_patterns: Vec<String>,
    pub add_pitfalls: Vec<String>,
    pub add_depends_on: Vec<String>,
    pub add_enables: Vec<String>,
    pub superseded_by: Option<String>,
    pub deprecated: bool,
}

/// The arguments of `guide_forget`.
#[derive(Debug, Clone, Default, PartialEq)]
pub struct GuideForgetArgs {
    pub guide: String,
}

/// The arguments of `guide_merge`.
#[derive(Debug, Clone, Default, PartialEq)]
pub struct GuideMergeArgs {
    pub guides: Vec<String>,
    pub guide: String,
    pub category: String,
    pub description: Option<String>,
    pub contexts: Option<Vec<String>>,
    pub learnings: Option<Vec<String>>,
}

/// The arguments of `session_start`.
#[derive(Debug, Clone, Default, PartialEq)]
pub struct SessionStartArgs {
    pub task_type: String,
    pub technologies: Vec<String>,
    pub initial_approach: Option<String>,
}

/// The arguments of `session_attempt`.
#[derive(Debug, Clone, Default, PartialEq)]
pub struct SessionAttemptArgs {
    pub approach: String,
    pub outcome: String,
    pub critique: Option<String>,
    pub rationale: Option<String>,
    pub related_memory_id: Option<String>,
}

/// The arguments of `session_end`.
#[derive(Debug, Clone, Default, PartialEq)]
pub struct SessionEndArgs {
    pub outcome: String,
    pub final_approach: Option<String>,
    pub lessons: Vec<String>,
}

/// The arguments of `session_stats`.
#[derive(Debug, Clone, Default, PartialEq)]
pub struct SessionStatsArgs {
    pub count: Option<usize>,
    pub response_format: Option<ResponseFormat>,
}

/// The arguments of `suggestion_respond`.
#[derive(Debug, Clone, PartialEq)]
pub struct SuggestionRespondArgs {
    pub id: u64,
    pub action: String,
}

/// The arguments of `conflict_scan`.
#[derive(Debug, Clone, Default, PartialEq)]
pub struct ConflictScanArgs {
    pub project: Option<String>,
    pub response_format: Option<ResponseFormat>,
}

/// The arguments of `proactive_analysis`.
#[derive(Debug, Clone, Default, PartialEq)]
pub struct ProactiveAnalysisArgs {
    pub project: Option<String>,
    pub response_format: Option<ResponseFormat>,
}

/// The arguments of `project_analytics`.
#[derive(Debug, Clone, Default, PartialEq)]
pub struct ProjectAnalyticsArgs {
    pub project: Option<String>,
    pub response_format: Option<ResponseFormat>,
}

/// The arguments of one call.
#[derive(Debug, Clone, PartialEq)]
pub enum ToolArgs {
    MemoryRead(MemoryReadArgs),
    MemoryAdd(MemoryAddArgs),
    MemoryUpdate(MemoryUpdateArgs),
    MemoryFeedback(MemoryFeedbackArgs),
    MemoryForget(MemoryForgetArgs),
    MemoryMerge(MemoryMergeArgs),
    MemoryRelate(MemoryRelateArgs),
    MemoryStats(MemoryStatsArgs),
    MemoryAudit(MemoryAuditArgs),
    MemoryLibrary(MemoryLibraryArgs),
    SemanticSearch(SemanticSearchArgs),
    GuideGet(GuideGetArgs),
    GuidePractice(GuidePracticeArgs),
    GuideCreate(GuideCreateArgs),
    GuideDistill(GuideDistillArgs),
    GuideUpdate(GuideUpdateArgs),
    GuideForget(GuideForgetArgs),
    GuideMerge(GuideMergeArgs),
    SessionStart(SessionStartArgs),
    SessionAttempt(SessionAttemptArgs),
    SessionEnd(SessionEndArgs),
    SessionStats(SessionStatsArgs),
    SuggestionRespond(SuggestionRespondArgs),
    ConflictScan(ConflictScanArgs),
    ProactiveAnalysis(ProactiveAnalysisArgs),
    ProjectAnalytics(ProjectAnalyticsArgs),
}

impl ToolArgs {
    /// The tool that the arguments are for.
    pub open spec fn name(self) -> ToolName {
        match self {
            ToolArgs::MemoryRead(_) => ToolName::MemoryRead,
            ToolArgs::MemoryAdd(_) => ToolName::MemoryAdd,
            ToolArgs::MemoryUpdate(_) => ToolName::MemoryUpdate,
            ToolArgs::MemoryFeedback(_) => ToolName::MemoryFeedback,
            ToolArgs::MemoryForget(_) => ToolName::MemoryForget,
            ToolArgs::MemoryMerge(_) => ToolName::MemoryMerge,
            ToolArgs::MemoryRelate(_) => ToolName::MemoryRelate,
            ToolArgs::MemoryStats(_) => ToolName::MemoryStats,
            ToolArgs::MemoryAudit(_) => ToolName::MemoryAudit,
            ToolArgs::MemoryLibrary(_) => ToolName::MemoryLibrary,
            ToolArgs::SemanticSearch(_) => ToolName::SemanticSearch,
            ToolArgs::GuideGet(_) => ToolName::GuideGet,
            ToolArgs::GuidePractice(_) => ToolName::GuidePractice,
            ToolArgs::GuideCreate(_) => ToolName::GuideCreate,
            ToolArgs::GuideDistill(_) => ToolName::GuideDistill,
            ToolArgs::GuideUpdate(_) => ToolName::GuideUpdate,
            ToolArgs::GuideForget(_) => ToolName::GuideForget,
            ToolArgs::GuideMerge(_) => ToolName::GuideMerge,
            ToolArgs::SessionStart(_) => ToolName::SessionStart,
            ToolArgs::SessionAttempt(_) => ToolName::SessionAttempt,
            ToolArgs::SessionEnd(_) => ToolName::SessionEnd,
            ToolArgs::SessionStats(_) => ToolName::SessionStats,
            ToolArgs::SuggestionRespond(_) => ToolName::SuggestionRespond,
            ToolArgs::ConflictScan(_) => ToolName::ConflictScan,
            ToolArgs::ProactiveAnalysis(_) => ToolName::ProactiveAnalysis,
            ToolArgs::ProjectAnalytics(_) => ToolName::ProjectAnalytics,
        }
    }

    pub fn tool(&self) -> (r: ToolName)
        ensures
            r == self.name(),
    {
        match self {
            ToolArgs::MemoryRead(_) => ToolName::MemoryRead,
            ToolArgs::MemoryAdd(_) => ToolName::MemoryAdd,
            ToolArgs::MemoryUpdate(_) => ToolName::MemoryUpdate,
            ToolArgs::MemoryFeedback(_) => ToolName::MemoryFeedback,
            ToolArgs::MemoryForget(_) => ToolName::MemoryForget,
            ToolArgs::MemoryMerge(_) => ToolName::MemoryMerge,
            ToolArgs::MemoryRelate(_) => ToolName::MemoryRelate,
            ToolArgs::MemoryStats(_) => ToolName::MemoryStats,
            ToolArgs::MemoryAudit(_) => ToolName::MemoryAudit,
            ToolArgs::MemoryLibrary(_) => ToolName::MemoryLibrary,
            ToolArgs::SemanticSearch(_) => ToolName::SemanticSearch,
            ToolArgs::GuideGet(_) => ToolName::GuideGet,
            ToolArgs::GuidePractice(_) => ToolName::GuidePractice,
            ToolArgs::GuideCreate(_) => ToolName::GuideCreate,
            ToolArgs::GuideDistill(_) => ToolName::GuideDistill,
            ToolArgs::GuideUpdate(_) => ToolName::GuideUpdate,
            ToolArgs::GuideForget(_) => ToolName::GuideForget,
            ToolArgs::GuideMerge(_) => ToolName::GuideMerge,
            ToolArgs::SessionStart(_) => ToolName::SessionStart,
            ToolArgs::SessionAttempt(_) => ToolName::SessionAttempt,
            ToolArgs::SessionEnd(_) => ToolName::SessionEnd,
            ToolArgs::SessionStats(_) => ToolName::SessionStats,
            ToolArgs::SuggestionRespond(_) => ToolName::SuggestionRespond,
            ToolArgs::ConflictScan(_) => ToolName::ConflictScan,
            ToolArgs::ProactiveAnalysis(_) => ToolName::ProactiveAnalysis,
            ToolArgs::ProjectAnalytics(_) => ToolName::ProjectAnalytics,
        }
    }
}

} // verus!
