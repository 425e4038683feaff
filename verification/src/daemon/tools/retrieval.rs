//! What is asked of the search backend, and what its scores come to.
//!
//! A request says that memories are to be compared by meaning. The space that
//! they are compared in is that of the model that the backend was opened with.

use crate::compatibility::lemma::tool_args::{MemoryReadArgs, SemanticSearchArgs, ToolArgs};
use crate::daemon::envelope::DomainRequest;
use crate::daemon::tools::search::{search_limit, search_offset};
use crate::domain::command::{Scope, ScopeView};
use crate::domain::score::Score;
use crate::lists::next_page;
use crate::text::opt_view;
use vstd::prelude::*;

verus! {

/// How many memories a read asks for.
pub const RECALL_LIMIT: usize = 100;

/// The score of a memory that the backend gives none: one half.
pub const UNSCORED: i64 = 4_602_678_819_172_646_912;

/// A request to the search backend.
#[derive(Debug)]
pub struct SearchRequest {
    pub query: String,
    pub scope: Scope,
    /// Whether memories are compared by their vectors too.
    pub dense: bool,
    /// How many memories are wanted at most.
    pub limit: usize,
}

/// The content of a request.
#[verifier::ext_equal]
pub struct SearchRequestView {
    pub query: Seq<char>,
    pub scope: ScopeView,
    pub dense: bool,
    pub limit: usize,
}

impl View for SearchRequest {
    type V = SearchRequestView;

    open spec fn view(&self) -> SearchRequestView {
        SearchRequestView {
            query: self.query@,
            scope: self.scope@,
            dense: self.dense,
            limit: self.limit,
        }
    }
}

/// The scope of a project, or of what belongs to none. No date and no type is
/// left out of it.
pub open spec fn scope_of(
    project: Option<Seq<char>>,
    all_projects: bool,
    min_confidence: Option<Score>,
) -> ScopeView {
    ScopeView {
        project,
        fragment_types: None,
        after: None,
        before: None,
        min_confidence,
        all_projects,
    }
}

/// What a read asks for: its query, or none, in its scope.
pub open spec fn asked_by_read(args: MemoryReadArgs) -> SearchRequestView {
    SearchRequestView {
        query: match args.query {
            Some(q) => q@,
            None => ""@,
        },
        scope: scope_of(opt_view(args.project), args.all, args.min_confidence),
        dense: true,
        limit: RECALL_LIMIT,
    }
}

/// What a search asks for: its query in the scope of its project, up to the end
/// of the page.
pub open spec fn asked_by_search(args: SemanticSearchArgs) -> SearchRequestView {
    let end = search_offset(args) + search_limit(args);
    SearchRequestView {
        query: args.query@,
        scope: scope_of(opt_view(args.project), false, None),
        dense: true,
        limit: if end > usize::MAX {
            usize::MAX
        } else {
            end as usize
        },
    }
}

/// What a call asks of the backend: only a search does, and a read that names
/// no memory.
pub open spec fn asked_by(body: DomainRequest) -> Option<SearchRequestView> {
    match body {
        DomainRequest::ToolCall { tool: ToolArgs::MemoryRead(a) } => if a.id is Some || (a.ids
            is Some && a.ids->0@.len() > 0) {
            None
        } else {
            Some(asked_by_read(a))
        },
        DomainRequest::ToolCall { tool: ToolArgs::SemanticSearch(a) } => Some(asked_by_search(a)),
        _ => None,
    }
}

/// The request of a read to the search backend.
pub fn recall_request(args: &MemoryReadArgs) -> (r: SearchRequest)
    ensures
        r@ == asked_by_read(*args),
{
    SearchRequest {
        query: match &args.query {
            Some(q) => q.clone(),
            None => "".to_owned(),
        },
        scope: Scope {
            project: args.project.clone(),
            fragment_types: None,
            after: None,
            before: None,
            min_confidence: args.min_confidence,
            all_projects: args.all,
        },
        dense: true,
        limit: RECALL_LIMIT,
    }
}

/// The request of a search to the search backend.
pub fn search_request(args: &SemanticSearchArgs) -> (r: SearchRequest)
    ensures
        r@ == asked_by_search(*args),
{
    let limit: usize = match args.top_k {
        None => 10,
        Some(n) => if n < 1 {
            1
        } else if n > 30 {
            30
        } else {
            n
        },
    };
    let offset: usize = match args.offset {
        None => 0,
        Some(n) => n,
    };
    SearchRequest {
        query: args.query.clone(),
        scope: Scope {
            project: args.project.clone(),
            fragment_types: None,
            after: None,
            before: None,
            min_confidence: None,
            all_projects: false,
        },
        dense: true,
        limit: next_page(offset, limit),
    }
}

/// The request that a call makes to the search backend, if it makes one.
pub fn backend_request(body: &DomainRequest) -> (r: Option<SearchRequest>)
    ensures
        opt_view(r) == asked_by(*body),
{
    match body {
        DomainRequest::ToolCall { tool } => match tool {
            ToolArgs::MemoryRead(a) => {
                let named = match &a.ids {
                    Some(ids) => ids.len() > 0,
                    None => false,
                };
                if a.id.is_some() || named {
                    None
                } else {
                    Some(recall_request(a))
                }
            },
            ToolArgs::SemanticSearch(a) => Some(search_request(a)),
            _ => None,
        },
        _ => None,
    }
}

/// The score that a memory is shown with: the better of the two that the backend
/// gives it.
pub open spec fn shown_score(scores: Option<(Score, Score)>) -> Score {
    match scores {
        Some((native, reference)) => if native.0 < reference.0 {
            reference
        } else {
            native
        },
        None => Score(UNSCORED),
    }
}

pub fn hit_score(scores: Option<(Score, Score)>) -> (r: Score)
    ensures
        r == shown_score(scores),
{
    match scores {
        Some((native, reference)) => if native.0 < reference.0 {
            reference
        } else {
            native
        },
        None => Score(UNSCORED),
    }
}

} // verus!
