//! What the analyses of the memory find.

use crate::domain::score::Score;
use crate::text::{clone_all, opt_view, views};
use vstd::prelude::*;

verus! {

/// Two memories that seem to contradict each other. The score is in hundredths.
#[derive(Debug, PartialEq)]
pub struct ConflictPair {
    pub memory_a_id: String,
    pub memory_a_title: String,
    pub memory_b_id: String,
    pub memory_b_title: String,
    pub reason: String,
    pub overlap_score: u64,
}

/// The content of a conflict.
#[verifier::ext_equal]
pub struct ConflictPairView {
    pub memory_a_id: Seq<char>,
    pub memory_a_title: Seq<char>,
    pub memory_b_id: Seq<char>,
    pub memory_b_title: Seq<char>,
    pub reason: Seq<char>,
    pub overlap_score: u64,
}

impl View for ConflictPair {
    type V = ConflictPairView;

    open spec fn view(&self) -> ConflictPairView {
        ConflictPairView {
            memory_a_id: self.memory_a_id@,
            memory_a_title: self.memory_a_title@,
            memory_b_id: self.memory_b_id@,
            memory_b_title: self.memory_b_title@,
            reason: self.reason@,
            overlap_score: self.overlap_score,
        }
    }
}

impl Clone for ConflictPair {
    fn clone(&self) -> (r: Self)
        ensures
            r@ == self@,
    {
        ConflictPair {
            memory_a_id: self.memory_a_id.clone(),
            memory_a_title: self.memory_a_title.clone(),
            memory_b_id: self.memory_b_id.clone(),
            memory_b_title: self.memory_b_title.clone(),
            reason: self.reason.clone(),
            overlap_score: self.overlap_score,
        }
    }
}

/// Something that may be worth doing.
#[derive(Debug, PartialEq)]
pub struct ProactiveSuggestion {
    pub kind: String,
    pub priority: String,
    pub message: String,
    pub suggested_action: Option<String>,
}

/// The content of a suggestion.
#[verifier::ext_equal]
pub struct ProactiveSuggestionView {
    pub kind: Seq<char>,
    pub priority: Seq<char>,
    pub message: Seq<char>,
    pub suggested_action: Option<Seq<char>>,
}

impl View for ProactiveSuggestion {
    type V = ProactiveSuggestionView;

    open spec fn view(&self) -> ProactiveSuggestionView {
        ProactiveSuggestionView {
            kind: self.kind@,
            priority: self.priority@,
            message: self.message@,
            suggested_action: opt_view(self.suggested_action),
        }
    }
}

impl Clone for ProactiveSuggestion {
    fn clone(&self) -> (r: Self)
        ensures
            r@ == self@,
    {
        ProactiveSuggestion {
            kind: self.kind.clone(),
            priority: self.priority.clone(),
            message: self.message.clone(),
            suggested_action: self.suggested_action.clone(),
        }
    }
}

/// How much the guides of a category are used.
#[derive(Debug, PartialEq)]
pub struct SkillCoverage {
    pub category: String,
    pub count: u32,
    pub trend: String,
}

/// The content of a coverage.
#[verifier::ext_equal]
pub struct SkillCoverageView {
    pub category: Seq<char>,
    pub count: u32,
    pub trend: Seq<char>,
}

impl View for SkillCoverage {
    type V = SkillCoverageView;

    open spec fn view(&self) -> SkillCoverageView {
        SkillCoverageView {
            category: self.category@,
            count: self.count,
            trend: self.trend@,
        }
    }
}

impl Clone for SkillCoverage {
    fn clone(&self) -> (r: Self)
        ensures
            r@ == self@,
    {
        SkillCoverage {
            category: self.category.clone(),
            count: self.count,
            trend: self.trend.clone(),
        }
    }
}

/// A project in figures. The growth rate is in hundredths.
#[derive(Debug, PartialEq)]
pub struct ProjectProgress {
    pub project: String,
    pub total_sessions: usize,
    pub total_memories: usize,
    pub total_guides: usize,
    pub knowledge_growth_rate: u128,
    pub skill_coverage: Vec<SkillCoverage>,
    pub recent_insights: Vec<String>,
    pub health_score: Score,
}

/// The content of a progress report.
#[verifier::ext_equal]
pub struct ProjectProgressView {
    pub project: Seq<char>,
    pub total_sessions: usize,
    pub total_memories: usize,
    pub total_guides: usize,
    pub knowledge_growth_rate: u128,
    pub skill_coverage: Seq<SkillCoverageView>,
    pub recent_insights: Seq<Seq<char>>,
    pub health_score: Score,
}

impl View for ProjectProgress {
    type V = ProjectProgressView;

    open spec fn view(&self) -> ProjectProgressView {
        ProjectProgressView {
            project: self.project@,
            total_sessions: self.total_sessions,
            total_memories: self.total_memories,
            total_guides: self.total_guides,
            knowledge_growth_rate: self.knowledge_growth_rate,
            skill_coverage: views(self.skill_coverage@),
            recent_insights: views(self.recent_insights@),
            health_score: self.health_score,
        }
    }
}

impl Clone for ProjectProgress {
    fn clone(&self) -> (r: Self)
        ensures
            r@ == self@,
    {
        ProjectProgress {
            project: self.project.clone(),
            total_sessions: self.total_sessions,
            total_memories: self.total_memories,
            total_guides: self.total_guides,
            knowledge_growth_rate: self.knowledge_growth_rate,
            skill_coverage: clone_all(&self.skill_coverage),
            recent_insights: clone_all(&self.recent_insights),
            health_score: self.health_score,
        }
    }
}

} // verus!
