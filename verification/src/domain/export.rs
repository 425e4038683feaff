//! The whole store as one value, in a fixed order.

use crate::domain::guide::Guide;
use crate::domain::memory::{ArchivedFragment, FragmentHistory, Memory, UnknownField};
use crate::domain::project::Project;
use crate::domain::relation::Relation;
use crate::domain::session::{FeedbackEvent, Session, Suggestion};
use crate::order::{lemma_text_le_transitive, sort, sorted_from, text_lt, text_precedes, Ranked};
use vstd::prelude::*;

verus! {

impl Ranked for Memory {
    open spec fn lt(&self, other: &Self) -> bool {
        self.id.0 < other.id.0
    }

    proof fn lt_asymmetric(a: &Self, b: &Self) {
    }

    proof fn le_transitive(a: &Self, b: &Self, c: &Self) {
    }

    fn precedes(&self, other: &Self) -> (r: bool) {
        self.id.0 < other.id.0
    }
}

impl Ranked for Relation {
    open spec fn lt(&self, other: &Self) -> bool {
        self.id.0 < other.id.0
    }

    proof fn lt_asymmetric(a: &Self, b: &Self) {
    }

    proof fn le_transitive(a: &Self, b: &Self, c: &Self) {
    }

    fn precedes(&self, other: &Self) -> (r: bool) {
        self.id.0 < other.id.0
    }
}

impl Ranked for FeedbackEvent {
    open spec fn lt(&self, other: &Self) -> bool {
        self.id.0 < other.id.0
    }

    proof fn lt_asymmetric(a: &Self, b: &Self) {
    }

    proof fn le_transitive(a: &Self, b: &Self, c: &Self) {
    }

    fn precedes(&self, other: &Self) -> (r: bool) {
        self.id.0 < other.id.0
    }
}

impl Ranked for Suggestion {
    open spec fn lt(&self, other: &Self) -> bool {
        self.id < other.id
    }

    proof fn lt_asymmetric(a: &Self, b: &Self) {
    }

    proof fn le_transitive(a: &Self, b: &Self, c: &Self) {
    }

    fn precedes(&self, other: &Self) -> (r: bool) {
        self.id < other.id
    }
}

impl Ranked for ArchivedFragment {
    open spec fn lt(&self, other: &Self) -> bool {
        self.id.0 < other.id.0
    }

    proof fn lt_asymmetric(a: &Self, b: &Self) {
    }

    proof fn le_transitive(a: &Self, b: &Self, c: &Self) {
    }

    fn precedes(&self, other: &Self) -> (r: bool) {
        self.id.0 < other.id.0
    }
}

impl Ranked for FragmentHistory {
    open spec fn lt(&self, other: &Self) -> bool {
        self.id.0 < other.id.0
    }

    proof fn lt_asymmetric(a: &Self, b: &Self) {
    }

    proof fn le_transitive(a: &Self, b: &Self, c: &Self) {
    }

    fn precedes(&self, other: &Self) -> (r: bool) {
        self.id.0 < other.id.0
    }
}

proof fn lemma_text_asymmetric(a: Seq<char>, b: Seq<char>)
    requires
        text_lt(a, b),
    ensures
        !text_lt(b, a),
    decreases a.len(),
{
    if a.len() > 0 && b.len() > 0 && a[0] == b[0] {
        lemma_text_asymmetric(a.drop_first(), b.drop_first());
    }
}

impl Ranked for Guide {
    open spec fn lt(&self, other: &Self) -> bool {
        text_lt(self.name@, other.name@)
    }

    proof fn lt_asymmetric(a: &Self, b: &Self) {
        lemma_text_asymmetric(a.name@, b.name@);
    }

    proof fn le_transitive(a: &Self, b: &Self, c: &Self) {
        lemma_text_le_transitive(a.name@, b.name@, c.name@);
    }

    fn precedes(&self, other: &Self) -> (r: bool) {
        text_precedes(self.name.as_str(), other.name.as_str())
    }
}

/// Everything that a store holds.
#[derive(Debug, PartialEq)]
pub struct CanonicalExport {
    pub memories: Vec<Memory>,
    pub relations: Vec<Relation>,
    pub guides: Vec<Guide>,
    pub sessions: Vec<Session>,
    pub feedback: Vec<FeedbackEvent>,
    pub suggestions: Vec<Suggestion>,
    pub projects: Vec<Project>,
    pub archives: Vec<ArchivedFragment>,
    pub history: Vec<FragmentHistory>,
    pub unknown_fields: Vec<UnknownField>,
}

impl Default for CanonicalExport {
    fn default() -> (r: Self)
        ensures
            r.memories@.len() == 0,
            r.relations@.len() == 0,
            r.guides@.len() == 0,
            r.sessions@.len() == 0,
            r.feedback@.len() == 0,
            r.suggestions@.len() == 0,
            r.projects@.len() == 0,
            r.archives@.len() == 0,
            r.history@.len() == 0,
            r.unknown_fields@.len() == 0,
    {
        CanonicalExport {
            memories: Vec::new(),
            relations: Vec::new(),
            guides: Vec::new(),
            sessions: Vec::new(),
            feedback: Vec::new(),
            suggestions: Vec::new(),
            projects: Vec::new(),
            archives: Vec::new(),
            history: Vec::new(),
            unknown_fields: Vec::new(),
        }
    }
}

impl CanonicalExport {
    /// Puts the records in order: guides by name, sessions and projects as they
    /// are, all else by identifier. Records that tie keep their order.
    pub fn normalize(&mut self)
        ensures
            sorted_from(old(self).memories@, final(self).memories@),
            sorted_from(old(self).relations@, final(self).relations@),
            sorted_from(old(self).guides@, final(self).guides@),
            sorted_from(old(self).feedback@, final(self).feedback@),
            sorted_from(old(self).suggestions@, final(self).suggestions@),
            sorted_from(old(self).archives@, final(self).archives@),
            sorted_from(old(self).history@, final(self).history@),
            final(self).sessions == old(self).sessions,
            final(self).projects == old(self).projects,
            final(self).unknown_fields == old(self).unknown_fields,
    {
        sort(&mut self.memories);
        sort(&mut self.relations);
        sort(&mut self.guides);
        sort(&mut self.feedback);
        sort(&mut self.suggestions);
        sort(&mut self.archives);
        sort(&mut self.history);
    }
}

} // verus!
