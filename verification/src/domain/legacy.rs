//! Where the fields of legacy records go.

use crate::text::{opt_str, views};
use vstd::prelude::*;

verus! {

/// What becomes of a legacy field.
#[derive(Debug, Clone, Copy, PartialEq, Eq, Structural)]
pub enum FieldDestination {
    Canonical,
    Envelope,
    Derived,
    LossReport,
}

/// Where one legacy field goes.
#[derive(Debug, Clone, Copy, PartialEq)]
pub struct FieldMapping {
    pub legacy_field: &'static str,
    pub destination: FieldDestination,
    pub canonical_field: Option<&'static str>,
    pub notes: Option<&'static str>,
}

/// The content of a mapping.
#[verifier::ext_equal]
pub struct FieldMappingView {
    pub legacy_field: Seq<char>,
    pub destination: FieldDestination,
    pub canonical_field: Option<Seq<char>>,
    pub notes: Option<Seq<char>>,
}

impl View for FieldMapping {
    type V = FieldMappingView;

    open spec fn view(&self) -> FieldMappingView {
        FieldMappingView {
            legacy_field: self.legacy_field@,
            destination: self.destination,
            canonical_field: opt_str(self.canonical_field),
            notes: opt_str(self.notes),
        }
    }
}

/// A field that is kept, as the canonical field `canonical`.
pub open spec fn kept(
    legacy: Seq<char>,
    canonical: Seq<char>,
    notes: Option<Seq<char>>,
) -> FieldMappingView {
    FieldMappingView {
        legacy_field: legacy,
        destination: FieldDestination::Canonical,
        canonical_field: Some(canonical),
        notes,
    }
}

/// The fields of a memory.
pub open spec fn memory_table() -> Seq<FieldMappingView> {
    seq![
        kept("id"@, "id"@, None),
        kept("title"@, "title"@, None),
        kept("fragment"@, "fragment"@, None),
        kept("description"@, "description"@, None),
        kept("type"@, "fragment_type"@, None),
        kept("project"@, "project"@, None),
        kept("confidence"@, "confidence"@, None),
        kept("quality_score"@, "quality_score"@, Some("Optional; unknown stays None, not zero"@)),
        kept("source"@, "source"@, Some("Upstream enum preserved verbatim"@)),
        kept("tags"@, "tags"@, None),
        kept("created_at"@, "created_at"@, None),
        kept("updated_at"@, "updated_at"@, None),
        kept("raw_created"@, "raw_created"@, Some("Preserved when normalization would lose precision"@)),
    ]
}

/// The fields of a guide.
pub open spec fn guide_table() -> Seq<FieldMappingView> {
    seq![
        kept("name"@, "name"@, None),
        kept("category"@, "category"@, None),
        kept("description"@, "description"@, None),
        kept("contexts"@, "contexts"@, None),
        kept("learnings"@, "learnings"@, None),
        kept("usage_count"@, "usage_count"@, None),
        kept("last_used"@, "last_used"@, None),
        kept("success_count"@, "success_count"@, None),
        kept("failure_count"@, "failure_count"@, None),
        kept("anti_patterns"@, "anti_patterns"@, None),
        kept("pitfalls"@, "pitfalls"@, None),
        kept("depends_on"@, "depends_on"@, None),
        kept("enables"@, "enables"@, None),
        kept("superseded_by"@, "superseded_by"@, None),
        kept("deprecated"@, "deprecated"@, None),
    ]
}

fn keep(
    legacy: &'static str,
    canonical: &'static str,
    notes: Option<&'static str>,
) -> (r: FieldMapping)
    ensures
        r@ == kept(legacy@, canonical@, opt_str(notes)),
{
    FieldMapping {
        legacy_field: legacy,
        destination: FieldDestination::Canonical,
        canonical_field: Some(canonical),
        notes,
    }
}

/// The mappings of a memory's fields.
pub fn memory_fields() -> (r: Vec<FieldMapping>)
    ensures
        views(r@) == memory_table(),
{
    let mut out: Vec<FieldMapping> = Vec::new();
    out.push(keep("id", "id", None));
    out.push(keep("title", "title", None));
    out.push(keep("fragment", "fragment", None));
    out.push(keep("description", "description", None));
    out.push(keep("type", "fragment_type", None));
    out.push(keep("project", "project", None));
    out.push(keep("confidence", "confidence", None));
    out.push(keep("quality_score", "quality_score", Some("Optional; unknown stays None, not zero")));
    out.push(keep("source", "source", Some("Upstream enum preserved verbatim")));
    out.push(keep("tags", "tags", None));
    out.push(keep("created_at", "created_at", None));
    out.push(keep("updated_at", "updated_at", None));
    out.push(keep("raw_created", "raw_created", Some("Preserved when normalization would lose precision")));
    proof {
        assert(views(out@) =~= memory_table());
    }
    out
}

/// The mappings of a guide's fields.
pub fn guide_fields() -> (r: Vec<FieldMapping>)
    ensures
        views(r@) == guide_table(),
{
    let mut out: Vec<FieldMapping> = Vec::new();
    out.push(keep("name", "name", None));
    out.push(keep("category", "category", None));
    out.push(keep("description", "description", None));
    out.push(keep("contexts", "contexts", None));
    out.push(keep("learnings", "learnings", None));
    out.push(keep("usage_count", "usage_count", None));
    out.push(keep("last_used", "last_used", None));
    out.push(keep("success_count", "success_count", None));
    out.push(keep("failure_count", "failure_count", None));
    out.push(keep("anti_patterns", "anti_patterns", None));
    out.push(keep("pitfalls", "pitfalls", None));
    out.push(keep("depends_on", "depends_on", None));
    out.push(keep("enables", "enables", None));
    out.push(keep("superseded_by", "superseded_by", None));
    out.push(keep("deprecated", "deprecated", None));
    proof {
        assert(views(out@) =~= guide_table());
    }
    out
}

/// Every known mapping: the memory's, then the guide's.
pub fn all_mappings() -> (r: Vec<FieldMapping>)
    ensures
        views(r@) == memory_table() + guide_table(),
{
    let mut out = memory_fields();
    let ghost first = out@;
    let mut more = guide_fields();
    let ghost second = more@;
    out.append(&mut more);
    proof {
        assert(out@ == first + second);
        assert(views(out@) =~= views(first) + views(second));
    }
    out
}

/// A field that is not known is kept in the envelope, whatever it is.
pub fn classify_unknown_field(_field: &str) -> (r: FieldDestination)
    ensures
        r == FieldDestination::Envelope,
{
    FieldDestination::Envelope
}

/// No known field is lost: each has a canonical place.
pub proof fn law_no_known_field_is_lost(i: int)
    requires
        0 <= i < memory_table().len() + guide_table().len(),
    ensures
        (memory_table() + guide_table())[i].destination == FieldDestination::Canonical,
        (memory_table() + guide_table())[i].canonical_field is Some,
{
    if i < memory_table().len() {
        assert((memory_table() + guide_table())[i] == memory_table()[i]);
    } else {
        assert((memory_table() + guide_table())[i] == guide_table()[i - memory_table().len()]);
    }
}

} // verus!
