//! Guides: reusable skills.

use crate::domain::id::{EntityId, EntityRevision};
use crate::domain::memory::{clone_ids, Instant};
use crate::text::{clone_all, opt_view, views};
use vstd::prelude::*;

verus! {

/// A skill with its protocol, what was learned of it, and how it has fared.
#[derive(Debug, PartialEq)]
pub struct Guide {
    pub name: String,
    pub category: String,
    pub description: String,
    pub contexts: Vec<String>,
    pub learnings: Vec<String>,
    pub usage_count: u32,
    pub last_used: Option<Instant>,
    pub success_count: u32,
    pub failure_count: u32,
    pub anti_patterns: Vec<String>,
    pub pitfalls: Vec<String>,
    pub depends_on: Vec<String>,
    pub enables: Vec<String>,
    pub source_memories: Vec<EntityId>,
    pub validated_by: Vec<String>,
    pub superseded_by: Option<String>,
    pub deprecated: bool,
    pub entity_revision: EntityRevision,
    pub created_at: Instant,
    pub updated_at: Instant,
}

/// The content of a guide.
#[verifier::ext_equal]
pub struct GuideView {
    pub name: Seq<char>,
    pub category: Seq<char>,
    pub description: Seq<char>,
    pub contexts: Seq<Seq<char>>,
    pub learnings: Seq<Seq<char>>,
    pub usage_count: u32,
    pub last_used: Option<Instant>,
    pub success_count: u32,
    pub failure_count: u32,
    pub anti_patterns: Seq<Seq<char>>,
    pub pitfalls: Seq<Seq<char>>,
    pub depends_on: Seq<Seq<char>>,
    pub enables: Seq<Seq<char>>,
    pub source_memories: Seq<EntityId>,
    pub validated_by: Seq<Seq<char>>,
    pub superseded_by: Option<Seq<char>>,
    pub deprecated: bool,
    pub entity_revision: EntityRevision,
    pub created_at: Instant,
    pub updated_at: Instant,
}

impl View for Guide {
    type V = GuideView;

    open spec fn view(&self) -> GuideView {
        GuideView {
            name: self.name@,
            category: self.category@,
            description: self.description@,
            contexts: views(self.contexts@),
            learnings: views(self.learnings@),
            usage_count: self.usage_count,
            last_used: self.last_used,
            success_count: self.success_count,
            failure_count: self.failure_count,
            anti_patterns: views(self.anti_patterns@),
            pitfalls: views(self.pitfalls@),
            depends_on: views(self.depends_on@),
            enables: views(self.enables@),
            source_memories: self.source_memories@,
            validated_by: views(self.validated_by@),
            superseded_by: opt_view(self.superseded_by),
            deprecated: self.deprecated,
            entity_revision: self.entity_revision,
            created_at: self.created_at,
            updated_at: self.updated_at,
        }
    }
}

impl Clone for Guide {
    fn clone(&self) -> (r: Self)
        ensures
            r@ == self@,
    {
        Guide {
            name: self.name.clone(),
            category: self.category.clone(),
            description: self.description.clone(),
            contexts: clone_all(&self.contexts),
            learnings: clone_all(&self.learnings),
            usage_count: self.usage_count,
            last_used: self.last_used,
            success_count: self.success_count,
            failure_count: self.failure_count,
            anti_patterns: clone_all(&self.anti_patterns),
            pitfalls: clone_all(&self.pitfalls),
            depends_on: clone_all(&self.depends_on),
            enables: clone_all(&self.enables),
            source_memories: clone_ids(&self.source_memories),
            validated_by: clone_all(&self.validated_by),
            superseded_by: self.superseded_by.clone(),
            deprecated: self.deprecated,
            entity_revision: self.entity_revision,
            created_at: self.created_at,
            updated_at: self.updated_at,
        }
    }
}

impl GuideView {
    /// Whether every counter can still be stepped `n` times.
    pub open spec fn room(self, n: int) -> bool {
        &&& self.usage_count + n <= u32::MAX
        &&& self.success_count + n <= u32::MAX
        &&& self.failure_count + n <= u32::MAX
        &&& self.entity_revision.0 + n <= u64::MAX
    }
}

impl Guide {
    /// Whether the guide is to be followed: neither deprecated nor superseded.
    pub fn is_actionable(&self) -> (r: bool)
        ensures
            r == (!self.deprecated && self.superseded_by is None),
    {
        !self.deprecated && self.superseded_by.is_none()
    }
}

} // verus!
