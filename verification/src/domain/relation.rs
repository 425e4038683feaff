//! Relation types and the edges between memories.

use crate::domain::id::EntityId;
use crate::domain::memory::Instant;
use crate::text::{opt_view, same};
use vstd::prelude::*;

verus! {

/// How one memory relates to another.
#[derive(Debug, Clone, Copy, PartialEq, Eq, Hash, Structural)]
pub enum RelationType {
    Supports,
    Contradicts,
    Supersedes,
    SupersededBy,
    RelatedTo,
}

impl RelationType {
    /// The name of the type on the wire.
    pub open spec fn name(self) -> Seq<char> {
        match self {
            RelationType::Supports => "supports"@,
            RelationType::Contradicts => "contradicts"@,
            RelationType::Supersedes => "supersedes"@,
            RelationType::SupersededBy => "superseded_by"@,
            RelationType::RelatedTo => "related_to"@,
        }
    }

    /// The type with a given name.
    pub open spec fn named(s: Seq<char>) -> Option<RelationType> {
        if s == "supports"@ {
            Some(RelationType::Supports)
        } else if s == "contradicts"@ {
            Some(RelationType::Contradicts)
        } else if s == "supersedes"@ {
            Some(RelationType::Supersedes)
        } else if s == "superseded_by"@ {
            Some(RelationType::SupersededBy)
        } else if s == "related_to"@ {
            Some(RelationType::RelatedTo)
        } else {
            None
        }
    }

    pub fn as_str(&self) -> (r: &'static str)
        ensures
            r@ == self.name(),
    {
        match self {
            RelationType::Supports => "supports",
            RelationType::Contradicts => "contradicts",
            RelationType::Supersedes => "supersedes",
            RelationType::SupersededBy => "superseded_by",
            RelationType::RelatedTo => "related_to",
        }
    }

    pub fn parse(s: &str) -> (r: Option<Self>)
        ensures
            r == RelationType::named(s@),
    {
        if same(s, "supports") {
            Some(RelationType::Supports)
        } else if same(s, "contradicts") {
            Some(RelationType::Contradicts)
        } else if same(s, "supersedes") {
            Some(RelationType::Supersedes)
        } else if same(s, "superseded_by") {
            Some(RelationType::SupersededBy)
        } else if same(s, "related_to") {
            Some(RelationType::RelatedTo)
        } else {
            None
        }
    }

    /// Whether the edge reads the same from both ends.
    pub open spec fn symmetric(self) -> bool {
        self is Supports || self is Contradicts || self is RelatedTo
    }

    /// Whether the edge says that one memory replaces another.
    pub open spec fn supersession(self) -> bool {
        self is Supersedes || self is SupersededBy
    }

    /// The type of the same edge seen from its other end.
    pub open spec fn opposite(self) -> RelationType {
        match self {
            RelationType::Supersedes => RelationType::SupersededBy,
            RelationType::SupersededBy => RelationType::Supersedes,
            other => other,
        }
    }

    pub fn is_symmetric(&self) -> (r: bool)
        ensures
            r == self.symmetric(),
    {
        matches!(self, RelationType::Supports | RelationType::Contradicts | RelationType::RelatedTo)
    }

    pub fn inverse(&self) -> (r: Self)
        ensures
            r == self.opposite(),
    {
        match self {
            RelationType::Supersedes => RelationType::SupersededBy,
            RelationType::SupersededBy => RelationType::Supersedes,
            other => *other,
        }
    }

    pub fn is_supersession(&self) -> (r: bool)
        ensures
            r == self.supersession(),
    {
        matches!(self, RelationType::Supersedes | RelationType::SupersededBy)
    }
}

/// A type is read back from its name, and nothing but its name is read as it.
pub proof fn law_relation_type_names(t: RelationType, s: Seq<char>)
    ensures
        RelationType::named(t.name()) == Some(t),
        RelationType::named(s) == Some(t) ==> s == t.name(),
{
    reveal_strlit("supports");
    reveal_strlit("contradicts");
    reveal_strlit("supersedes");
    reveal_strlit("superseded_by");
    reveal_strlit("related_to");
    assert("supports"@.len() == 8);
    assert("contradicts"@.len() == 11);
    assert("supersedes"@.len() == 10);
    assert("superseded_by"@.len() == 13);
    assert("related_to"@.len() == 10);
    assert("related_to"@[0] == 'r');
    assert("supersedes"@[0] == 's');
}

/// The opposite of the opposite is the type itself, exactly the symmetric
/// types are their own opposite, and the opposite of a supersession is one.
pub proof fn law_relation_type_opposite(t: RelationType)
    ensures
        t.opposite().opposite() == t,
        t.symmetric() <==> t.opposite() == t,
        t.opposite().supersession() == t.supersession(),
        t.symmetric() <==> !t.supersession(),
{
}

/// An edge from one memory to another.
#[derive(Debug, PartialEq)]
pub struct Relation {
    pub id: EntityId,
    pub source: EntityId,
    pub target: EntityId,
    pub relation_type: RelationType,
    pub note: Option<String>,
    pub created_at: Instant,
}

/// The content of a relation.
#[verifier::ext_equal]
pub struct RelationView {
    pub id: EntityId,
    pub source: EntityId,
    pub target: EntityId,
    pub relation_type: RelationType,
    pub note: Option<Seq<char>>,
    pub created_at: Instant,
}

impl View for Relation {
    type V = RelationView;

    open spec fn view(&self) -> RelationView {
        RelationView {
            id: self.id,
            source: self.source,
            target: self.target,
            relation_type: self.relation_type,
            note: opt_view(self.note),
            created_at: self.created_at,
        }
    }
}

impl Clone for Relation {
    fn clone(&self) -> (r: Self)
        ensures
            r@ == self@,
    {
        Relation {
            id: self.id,
            source: self.source,
            target: self.target,
            relation_type: self.relation_type,
            note: self.note.clone(),
            created_at: self.created_at,
        }
    }
}

impl RelationView {
    /// The same edge seen from its other end.
    pub open spec fn reversed(self) -> RelationView {
        RelationView {
            source: self.target,
            target: self.source,
            relation_type: self.relation_type.opposite(),
            ..self
        }
    }
}

impl Relation {
    pub fn new(
        id: EntityId,
        source: EntityId,
        target: EntityId,
        relation_type: RelationType,
        note: Option<String>,
        created_at: Instant,
    ) -> (r: Self)
        ensures
            r == (Relation { id, source, target, relation_type, note, created_at }),
    {
        Relation { id, source, target, relation_type, note, created_at }
    }

    pub fn reverse(&self) -> (r: Self)
        ensures
            r@ == self@.reversed(),
    {
        Relation {
            id: self.id,
            source: self.target,
            target: self.source,
            relation_type: self.relation_type.inverse(),
            note: self.note.clone(),
            created_at: self.created_at,
        }
    }
}

/// Reversing an edge twice gives the edge back.
pub proof fn law_reverse_twice(r: RelationView)
    ensures
        r.reversed().reversed() == r,
{
}

} // verus!
