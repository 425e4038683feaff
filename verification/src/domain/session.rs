//! Sessions, attempts, feedback and suggestions.

use crate::domain::id::{ChannelId, EntityId, SessionHandle};
use crate::domain::memory::Instant;
use crate::domain::score::Score;
use crate::text::{clone_all, opt_view, same, views};
use vstd::prelude::*;

verus! {

/// How a session ended.
#[derive(Debug, Clone, Copy, PartialEq, Eq, Hash, Structural)]
pub enum TaskOutcome {
    Success,
    Partial,
    Failure,
    Abandoned,
}

impl TaskOutcome {
    /// The name of the value on the wire.
    pub open spec fn name(self) -> Seq<char> {
        match self {
            TaskOutcome::Success => "success"@,
            TaskOutcome::Partial => "partial"@,
            TaskOutcome::Failure => "failure"@,
            TaskOutcome::Abandoned => "abandoned"@,
        }
    }

    /// The value with a given name.
    pub open spec fn named(s: Seq<char>) -> Option<TaskOutcome> {
        if s == "success"@ {
            Some(TaskOutcome::Success)
        } else if s == "partial"@ {
            Some(TaskOutcome::Partial)
        } else if s == "failure"@ {
            Some(TaskOutcome::Failure)
        } else if s == "abandoned"@ {
            Some(TaskOutcome::Abandoned)
        } else {
            None
        }
    }

    pub fn as_str(&self) -> (r: &'static str)
        ensures
            r@ == self.name(),
    {
        match self {
            TaskOutcome::Success => "success",
            TaskOutcome::Partial => "partial",
            TaskOutcome::Failure => "failure",
            TaskOutcome::Abandoned => "abandoned",
        }
    }

    pub fn parse(s: &str) -> (r: Option<Self>)
        ensures
            r == TaskOutcome::named(s@),
    {
        if same(s, "success") {
            Some(TaskOutcome::Success)
        } else if same(s, "partial") {
            Some(TaskOutcome::Partial)
        } else if same(s, "failure") {
            Some(TaskOutcome::Failure)
        } else if same(s, "abandoned") {
            Some(TaskOutcome::Abandoned)
        } else {
            None
        }
    }
}

/// A value is read back from its name, and nothing but its name is read as it.
pub proof fn law_task_outcome_names(t: TaskOutcome, s: Seq<char>)
    ensures
        TaskOutcome::named(t.name()) == Some(t),
        TaskOutcome::named(s) == Some(t) ==> s == t.name(),
{
    reveal_strlit("success");
    reveal_strlit("partial");
    reveal_strlit("failure");
    reveal_strlit("abandoned");
    assert("success"@.len() == 7);
    assert("partial"@.len() == 7);
    assert("failure"@.len() == 7);
    assert("abandoned"@.len() == 9);
    assert("partial"@[0] == 'p');
    assert("success"@[0] == 's');
    assert("failure"@[0] == 'f');
}

/// How an attempt went.
#[derive(Debug, Clone, Copy, PartialEq, Eq, Hash, Structural)]
pub enum AttemptOutcome {
    Rejected,
    Partial,
    Promising,
}

impl AttemptOutcome {
    /// The name of the value on the wire.
    pub open spec fn name(self) -> Seq<char> {
        match self {
            AttemptOutcome::Rejected => "rejected"@,
            AttemptOutcome::Partial => "partial"@,
            AttemptOutcome::Promising => "promising"@,
        }
    }

    /// The value with a given name.
    pub open spec fn named(s: Seq<char>) -> Option<AttemptOutcome> {
        if s == "rejected"@ {
            Some(AttemptOutcome::Rejected)
        } else if s == "partial"@ {
            Some(AttemptOutcome::Partial)
        } else if s == "promising"@ {
            Some(AttemptOutcome::Promising)
        } else {
            None
        }
    }

    pub fn as_str(&self) -> (r: &'static str)
        ensures
            r@ == self.name(),
    {
        match self {
            AttemptOutcome::Rejected => "rejected",
            AttemptOutcome::Partial => "partial",
            AttemptOutcome::Promising => "promising",
        }
    }

    pub fn parse(s: &str) -> (r: Option<Self>)
        ensures
            r == AttemptOutcome::named(s@),
    {
        if same(s, "rejected") {
            Some(AttemptOutcome::Rejected)
        } else if same(s, "partial") {
            Some(AttemptOutcome::Partial)
        } else if same(s, "promising") {
            Some(AttemptOutcome::Promising)
        } else {
            None
        }
    }
}

/// A value is read back from its name, and nothing but its name is read as it.
pub proof fn law_attempt_outcome_names(t: AttemptOutcome, s: Seq<char>)
    ensures
        AttemptOutcome::named(t.name()) == Some(t),
        AttemptOutcome::named(s) == Some(t) ==> s == t.name(),
{
    reveal_strlit("rejected");
    reveal_strlit("partial");
    reveal_strlit("promising");
    assert("rejected"@.len() == 8);
    assert("partial"@.len() == 7);
    assert("promising"@.len() == 9);
}

/// Whether a session goes on.
#[derive(Debug, Clone, Copy, PartialEq, Eq, Structural)]
pub enum SessionStatus {
    Active,
    Ended,
    Abandoned,
}

impl SessionStatus {
    /// Whether the session is over.
    pub open spec fn terminal(self) -> bool {
        self is Ended || self is Abandoned
    }

    pub fn is_terminal(&self) -> (r: bool)
        ensures
            r == self.terminal(),
    {
        matches!(self, SessionStatus::Ended | SessionStatus::Abandoned)
    }
}

/// Something that was tried in a session, and how it went.
#[derive(Debug, PartialEq)]
pub struct Attempt {
    pub id: EntityId,
    pub session_id: SessionHandle,
    pub seq: u32,
    pub approach: String,
    pub outcome: AttemptOutcome,
    pub critique: Option<String>,
    pub rationale: Option<String>,
    pub related_memory_id: Option<EntityId>,
    pub confidence: Score,
    pub access_count: u64,
    pub last_accessed_at: Option<Instant>,
    pub created_at: Instant,
}

/// The content of an attempt.
#[verifier::ext_equal]
pub struct AttemptView {
    pub id: EntityId,
    pub session_id: SessionHandle,
    pub seq: u32,
    pub approach: Seq<char>,
    pub outcome: AttemptOutcome,
    pub critique: Option<Seq<char>>,
    pub rationale: Option<Seq<char>>,
    pub related_memory_id: Option<EntityId>,
    pub confidence: Score,
    pub access_count: u64,
    pub last_accessed_at: Option<Instant>,
    pub created_at: Instant,
}

impl View for Attempt {
    type V = AttemptView;

    open spec fn view(&self) -> AttemptView {
        AttemptView {
            id: self.id,
            session_id: self.session_id,
            seq: self.seq,
            approach: self.approach@,
            outcome: self.outcome,
            critique: opt_view(self.critique),
            rationale: opt_view(self.rationale),
            related_memory_id: self.related_memory_id,
            confidence: self.confidence,
            access_count: self.access_count,
            last_accessed_at: self.last_accessed_at,
            created_at: self.created_at,
        }
    }
}

impl Clone for Attempt {
    fn clone(&self) -> (r: Self)
        ensures
            r@ == self@,
    {
        Attempt {
            id: self.id,
            session_id: self.session_id,
            seq: self.seq,
            approach: self.approach.clone(),
            outcome: self.outcome,
            critique: self.critique.clone(),
            rationale: self.rationale.clone(),
            related_memory_id: self.related_memory_id,
            confidence: self.confidence,
            access_count: self.access_count,
            last_accessed_at: self.last_accessed_at,
            created_at: self.created_at,
        }
    }
}

/// A working session of one channel.
#[derive(Debug, PartialEq)]
pub struct Session {
    pub handle: SessionHandle,
    pub channel_id: ChannelId,
    pub project: Option<String>,
    pub task_type: Option<String>,
    pub technologies: Vec<String>,
    pub status: SessionStatus,
    pub attempts: Vec<Attempt>,
    pub outcome: Option<TaskOutcome>,
    pub final_approach: Option<String>,
    pub lessons: Vec<String>,
    pub initial_approach: Option<String>,
    pub guides_used: Vec<String>,
    pub memories_read: Vec<String>,
    pub memories_created: Vec<String>,
    pub refinement_attempts: u32,
    pub self_critique_count: u32,
    pub started_at: Instant,
    pub ended_at: Option<Instant>,
}

/// The content of a session.
#[verifier::ext_equal]
pub struct SessionView {
    pub handle: SessionHandle,
    pub channel_id: ChannelId,
    pub project: Option<Seq<char>>,
    pub task_type: Option<Seq<char>>,
    pub technologies: Seq<Seq<char>>,
    pub status: SessionStatus,
    pub attempts: Seq<AttemptView>,
    pub outcome: Option<TaskOutcome>,
    pub final_approach: Option<Seq<char>>,
    pub lessons: Seq<Seq<char>>,
    pub initial_approach: Option<Seq<char>>,
    pub guides_used: Seq<Seq<char>>,
    pub memories_read: Seq<Seq<char>>,
    pub memories_created: Seq<Seq<char>>,
    pub refinement_attempts: u32,
    pub self_critique_count: u32,
    pub started_at: Instant,
    pub ended_at: Option<Instant>,
}

impl View for Session {
    type V = SessionView;

    open spec fn view(&self) -> SessionView {
        SessionView {
            handle: self.handle,
            channel_id: self.channel_id,
            project: opt_view(self.project),
            task_type: opt_view(self.task_type),
            technologies: views(self.technologies@),
            status: self.status,
            attempts: views(self.attempts@),
            outcome: self.outcome,
            final_approach: opt_view(self.final_approach),
            lessons: views(self.lessons@),
            initial_approach: opt_view(self.initial_approach),
            guides_used: views(self.guides_used@),
            memories_read: views(self.memories_read@),
            memories_created: views(self.memories_created@),
            refinement_attempts: self.refinement_attempts,
            self_critique_count: self.self_critique_count,
            started_at: self.started_at,
            ended_at: self.ended_at,
        }
    }
}

impl Clone for Session {
    fn clone(&self) -> (r: Self)
        ensures
            r@ == self@,
    {
        Session {
            handle: self.handle,
            channel_id: self.channel_id,
            project: self.project.clone(),
            task_type: self.task_type.clone(),
            technologies: clone_all(&self.technologies),
            status: self.status,
            attempts: clone_all(&self.attempts),
            outcome: self.outcome,
            final_approach: self.final_approach.clone(),
            lessons: clone_all(&self.lessons),
            initial_approach: self.initial_approach.clone(),
            guides_used: clone_all(&self.guides_used),
            memories_read: clone_all(&self.memories_read),
            memories_created: clone_all(&self.memories_created),
            refinement_attempts: self.refinement_attempts,
            self_critique_count: self.self_critique_count,
            started_at: self.started_at,
            ended_at: self.ended_at,
        }
    }
}

impl Session {
    /// Whether the session can still be ended.
    pub fn can_end(&self) -> (r: bool)
        ensures
            r == !self.status.terminal(),
    {
        !self.status.is_terminal()
    }
}

/// A judgement on whether a memory was useful.
#[derive(Debug, Clone, Copy, PartialEq, Eq, Structural)]
pub struct FeedbackEvent {
    pub id: EntityId,
    pub memory_id: EntityId,
    pub useful: bool,
    pub timestamp: Instant,
}

/// What became of a suggestion.
#[derive(Debug, Clone, Copy, PartialEq, Eq, Hash, Structural)]
pub enum SuggestionStatus {
    Pending,
    Accepted,
    Dismissed,
}

impl SuggestionStatus {
    /// The name of the value on the wire.
    pub open spec fn name(self) -> Seq<char> {
        match self {
            SuggestionStatus::Pending => "pending"@,
            SuggestionStatus::Accepted => "accepted"@,
            SuggestionStatus::Dismissed => "dismissed"@,
        }
    }

    /// The value with a given name.
    pub open spec fn named(s: Seq<char>) -> Option<SuggestionStatus> {
        if s == "pending"@ {
            Some(SuggestionStatus::Pending)
        } else if s == "accepted"@ {
            Some(SuggestionStatus::Accepted)
        } else if s == "dismissed"@ {
            Some(SuggestionStatus::Dismissed)
        } else {
            None
        }
    }

    pub fn as_str(&self) -> (r: &'static str)
        ensures
            r@ == self.name(),
    {
        match self {
            SuggestionStatus::Pending => "pending",
            SuggestionStatus::Accepted => "accepted",
            SuggestionStatus::Dismissed => "dismissed",
        }
    }

    pub fn parse(s: &str) -> (r: Option<Self>)
        ensures
            r == SuggestionStatus::named(s@),
    {
        if same(s, "pending") {
            Some(SuggestionStatus::Pending)
        } else if same(s, "accepted") {
            Some(SuggestionStatus::Accepted)
        } else if same(s, "dismissed") {
            Some(SuggestionStatus::Dismissed)
        } else {
            None
        }
    }
}

/// A value is read back from its name, and nothing but its name is read as it.
pub proof fn law_suggestion_status_names(t: SuggestionStatus, s: Seq<char>)
    ensures
        SuggestionStatus::named(t.name()) == Some(t),
        SuggestionStatus::named(s) == Some(t) ==> s == t.name(),
{
    reveal_strlit("pending");
    reveal_strlit("accepted");
    reveal_strlit("dismissed");
    assert("pending"@.len() == 7);
    assert("accepted"@.len() == 8);
    assert("dismissed"@.len() == 9);
}

/// An improvement that a session suggested.
#[derive(Debug, PartialEq)]
pub struct Suggestion {
    pub id: u64,
    pub session_id: Option<String>,
    pub suggestion: String,
    pub status: SuggestionStatus,
    pub created_at: Instant,
    pub resolved_at: Option<Instant>,
}

/// The content of a suggestion.
#[verifier::ext_equal]
pub struct SuggestionView {
    pub id: u64,
    pub session_id: Option<Seq<char>>,
    pub suggestion: Seq<char>,
    pub status: SuggestionStatus,
    pub created_at: Instant,
    pub resolved_at: Option<Instant>,
}

impl View for Suggestion {
    type V = SuggestionView;

    open spec fn view(&self) -> SuggestionView {
        SuggestionView {
            id: self.id,
            session_id: opt_view(self.session_id),
            suggestion: self.suggestion@,
            status: self.status,
            created_at: self.created_at,
            resolved_at: self.resolved_at,
        }
    }
}

impl Clone for Suggestion {
    fn clone(&self) -> (r: Self)
        ensures
            r@ == self@,
    {
        Suggestion {
            id: self.id,
            session_id: self.session_id.clone(),
            suggestion: self.suggestion.clone(),
            status: self.status,
            created_at: self.created_at,
            resolved_at: self.resolved_at,
        }
    }
}

} // verus!
