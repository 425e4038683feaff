//! The records of the older wire format.

use crate::domain::score::Score;
use vstd::prelude::*;

verus! {

/// An edge between two memories.
#[derive(Debug, Clone, PartialEq)]
pub struct LegacyMemoryRelation {
    pub source_id: String,
    pub target_id: String,
    pub relation_type: String,
    pub note: Option<String>,
}

/// A memory. Its evidence is kept as the JSON texts that came.
#[derive(Debug, Clone, PartialEq)]
pub struct LegacyMemoryFragment {
    pub id: String,
    pub title: String,
    pub description: Option<String>,
    pub fragment: String,
    pub fragment_type: Option<String>,
    pub project: Option<String>,
    pub confidence: Score,
    pub quality_score: Option<Score>,
    pub source: Option<String>,
    pub tags: Option<Vec<String>>,
    pub created_at: Option<String>,
    pub related_guides: Option<Vec<String>>,
    pub associated_with: Option<Vec<String>>,
    pub evidence: Option<Vec<String>>,
    pub related_relations: Option<Vec<LegacyMemoryRelation>>,
}

/// A guide.
#[derive(Debug, Clone, PartialEq)]
pub struct LegacyGuide {
    pub name: String,
    pub category: String,
    pub description: String,
    pub contexts: Option<Vec<String>>,
    pub learnings: Option<Vec<String>>,
    pub usage_count: u32,
    pub last_used: Option<String>,
    pub success_count: Option<u32>,
    pub failure_count: Option<u32>,
}

/// A session.
#[derive(Debug, Clone, PartialEq)]
pub struct LegacySession {
    pub task_type: String,
    pub outcome: Option<String>,
    pub final_approach: Option<String>,
    pub lessons: Option<Vec<String>>,
}

/// An attempt.
#[derive(Debug, Clone, PartialEq)]
pub struct LegacyAttempt {
    pub approach: String,
    pub outcome: String,
    pub critique: Option<String>,
    pub rationale: Option<String>,
}

/// A suggestion.
#[derive(Debug, Clone, PartialEq)]
pub struct LegacyImprovementSuggestion {
    pub id: u64,
    pub suggestion: String,
    pub related_memory_id: Option<String>,
}

} // verus!
