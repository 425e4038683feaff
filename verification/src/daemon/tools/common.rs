//! What the tools have in common: answers, names, projects, titles, and the
//! commands that they issue.

use crate::canonical::repository::stored;
use crate::compatibility::lemma::tool_args::ResponseFormat;
use crate::daemon::dispatcher::{stale, stale_error, Dispatcher, DispatcherView};
use crate::daemon::envelope::{IpcEnvelope, ToolResult, ToolResultView};
use crate::daemon::tools::data::{ToolData, ToolDataView};
use crate::digest::{hex_padded, hex_text};
use crate::domain::command::{
    CommandReceiptView, DomainCommand, DomainCommandView, DomainErrorView, DomainResult,
};
use crate::domain::id::{
    uuid_from_name, uuid_named, uuid_text, uuid_to_text, DocumentRevision, EligibilityRevision,
    EntityId, EntityRevision, ExternalAlias, OperationId,
};
use crate::domain::memory::{
    clone_ids, FragmentType, Instant, Memory, MemoryLifecycle, MemorySource, MemoryView,
};
use crate::domain::relation::{Relation, RelationType, RelationView};
use crate::domain::score::{Score, UNIT};
use crate::lists::count;
use crate::text::{
    chars_of, contains, law_trimmed_stays_trimmed, lemma_trimmed_part, lower, lowercase, opt_view,
    part_of, same, string_of, trim, trimmed, views, words,
};
use vstd::prelude::*;

verus! {

/// A memory that the search backend found, with its score.
#[derive(Debug)]
pub struct Hit {
    pub memory: Memory,
    pub score: Score,
}

/// The content of a hit.
#[verifier::ext_equal]
pub struct HitView {
    pub memory: MemoryView,
    pub score: Score,
}

impl View for Hit {
    type V = HitView;

    open spec fn view(&self) -> HitView {
        HitView { memory: self.memory@, score: self.score }
    }
}

impl Clone for Hit {
    fn clone(&self) -> (r: Self)
        ensures
            r@ == self@,
    {
        Hit { memory: self.memory.clone(), score: self.score }
    }
}

// ---------------------------------------------------------------------------
// Answers
// ---------------------------------------------------------------------------

/// What comes of a tool call: the state after it, and the answer or why the
/// store refused.
pub type Outcome = (DispatcherView, Result<ToolResultView, DomainErrorView>);

/// The view of what a tool returns.
pub open spec fn answer(r: DomainResult<ToolResult>) -> Result<ToolResultView, DomainErrorView> {
    match r {
        Ok(x) => Ok(x@),
        Err(e) => Err(e@),
    }
}

/// An answer with a text and its structured part.
pub open spec fn ok_view(text: Seq<char>, data: ToolDataView) -> ToolResultView {
    ToolResultView { text, structured: Some(data), is_error: false, as_json: false }
}

/// An answer that reports an error.
pub open spec fn err_view(message: Seq<char>) -> ToolResultView {
    ToolResultView { text: "Error: "@ + message, structured: None, is_error: true, as_json: false }
}

/// An answer in the format that was asked for.
pub open spec fn formatted(text: Seq<char>, data: ToolDataView, format: Option<ResponseFormat>) ->
    ToolResultView {
    ToolResultView {
        text,
        structured: Some(data),
        is_error: false,
        as_json: format == Some(ResponseFormat::Json),
    }
}

pub fn ok_result(text: String, data: ToolData) -> (r: ToolResult)
    ensures
        r@ == ok_view(text@, data@),
{
    ToolResult { text, structured: Some(data), is_error: false, as_json: false }
}

pub fn err_result(message: &str) -> (r: ToolResult)
    ensures
        r@ == err_view(message@),
{
    let mut text = "Error: ".to_owned();
    text.append(message);
    ToolResult { text, structured: None, is_error: true, as_json: false }
}

pub fn format_result(text: String, data: ToolData, format: Option<ResponseFormat>) -> (r: ToolResult)
    ensures
        r@ == formatted(text@, data@, format),
{
    let as_json = match format {
        Some(ResponseFormat::Json) => true,
        _ => false,
    };
    ToolResult { text, structured: Some(data), is_error: false, as_json }
}

/// A memory that is not there.
pub open spec fn not_found_text(id: Seq<char>) -> Seq<char> {
    "Fragment with ID '"@ + id + "' not found"@
}

pub fn not_found(id: &str) -> (r: String)
    ensures
        r@ == not_found_text(id@),
{
    let mut out = "Fragment with ID '".to_owned();
    out.append(id);
    out.append("' not found");
    out
}

// ---------------------------------------------------------------------------
// Names
// ---------------------------------------------------------------------------

/// What is left of a 128-bit number when its last 80 bits are cut off.
pub const LOW_80: u128 = 1208925819614629174706176;

/// The name of a new memory: made from the operation, so that a retry makes it
/// again.
pub open spec fn new_name(op: OperationId) -> Seq<char> {
    "m"@ + hex_padded(
        (uuid_named("ltmrs:memory:"@ + uuid_text(op.0)) / LOW_80) as nat,
        12,
    )
}

pub fn new_legacy_id(envelope: &IpcEnvelope) -> (r: String)
    ensures
        r@ == new_name(envelope.operation_id),
{
    let mut key = "ltmrs:memory:".to_owned();
    key.append(uuid_to_text(envelope.operation_id.0).as_str());
    let u: u128 = uuid_from_name(key.as_str());
    let mut out = "m".to_owned();
    out.append(hex_text(u / LOW_80, 12).as_str());
    out
}

/// The identifier of a new memory.
pub open spec fn new_entity(op: OperationId) -> EntityId {
    EntityId(uuid_named("ltmrs:entity:"@ + uuid_text(op.0)))
}

pub fn new_entity_id(envelope: &IpcEnvelope) -> (r: EntityId)
    ensures
        r == new_entity(envelope.operation_id),
{
    let mut key = "ltmrs:entity:".to_owned();
    key.append(uuid_to_text(envelope.operation_id.0).as_str());
    EntityId::new(uuid_from_name(key.as_str()))
}

/// An edge whose identifier is made from the operation and its ends.
pub open spec fn new_edge(
    op: OperationId,
    source: EntityId,
    target: EntityId,
    rtype: RelationType,
    note: Option<Seq<char>>,
) -> RelationView {
    RelationView {
        id: EntityId(
            uuid_named(
                "ltmrs:rel:"@ + uuid_text(op.0) + ":"@ + uuid_text(source.0) + ":"@ + uuid_text(
                    target.0,
                ) + ":"@ + rtype.name(),
            ),
        ),
        source,
        target,
        relation_type: rtype,
        note,
        created_at: Instant(0),
    }
}

pub fn new_relation(
    envelope: &IpcEnvelope,
    source: EntityId,
    target: EntityId,
    rtype: RelationType,
    note: Option<String>,
) -> (r: Relation)
    ensures
        r@ == new_edge(envelope.operation_id, source, target, rtype, opt_view(note)),
{
    let mut key = "ltmrs:rel:".to_owned();
    key.append(uuid_to_text(envelope.operation_id.0).as_str());
    key.append(":");
    key.append(uuid_to_text(source.0).as_str());
    key.append(":");
    key.append(uuid_to_text(target.0).as_str());
    key.append(":");
    key.append(rtype.as_str());
    Relation::new(
        EntityId::new(uuid_from_name(key.as_str())),
        source,
        target,
        rtype,
        note,
        Instant::new(0),
    )
}

// ---------------------------------------------------------------------------
// Projects, titles and descriptions
// ---------------------------------------------------------------------------

/// A path with forward slashes.
pub open spec fn forward(c: char) -> char {
    if c == '\\' {
        '/'
    } else {
        c
    }
}

/// A path without the slashes at its end.
pub open spec fn without_slashes(s: Seq<char>) -> Seq<char>
    decreases s.len(),
{
    if s.len() > 0 && s.last() == '/' {
        without_slashes(s.drop_last())
    } else {
        s
    }
}

/// What follows the last slash.
pub open spec fn base_name(s: Seq<char>) -> Seq<char>
    decreases s.len(),
{
    if s.len() == 0 || s.last() == '/' {
        Seq::empty()
    } else {
        base_name(s.drop_last()).push(s.last())
    }
}

/// The last part of a path, trimmed.
pub open spec fn project_base(raw: Seq<char>) -> Seq<char> {
    trimmed(base_name(without_slashes(trimmed(raw).map_values(|c: char| forward(c)))))
}

/// The key of a project: the last part of its path, trimmed, in lower case.
/// What is empty or `global` is no project.
pub open spec fn project_key(raw: Seq<char>) -> Option<Seq<char>> {
    let key = lowercase(project_base(raw));
    if project_base(raw).len() == 0 || key.len() == 0 || key == "global"@ {
        None
    } else {
        Some(key)
    }
}

pub fn normalize_project(raw: &str) -> (r: Option<String>)
    ensures
        opt_view(r) == project_key(raw@),
{
    let t = trim(raw);
    let v = chars_of(t.as_str());
    let ghost mapped = trimmed(raw@).map_values(|c: char| forward(c));
    let mut path: Vec<char> = Vec::new();
    let mut i: usize = 0;
    while i < v.len()
        invariant
            i <= v@.len(),
            v@ == trimmed(raw@),
            path@.len() == i,
            forall|j: int| 0 <= j < i ==> #[trigger] path@[j] == forward(v@[j]),
        decreases v@.len() - i,
    {
        if v[i] == '\\' {
            path.push('/');
        } else {
            path.push(v[i]);
        }
        i += 1;
    }
    let mut hi: usize = path.len();
    proof {
        assert(path@ =~= mapped);
        assert(path@.take(hi as int) =~= path@);
    }
    while hi > 0 && path[hi - 1] == '/'
        invariant
            hi <= path@.len(),
            without_slashes(path@.take(hi as int)) == without_slashes(path@),
        decreases hi,
    {
        proof {
            assert(path@.take(hi as int).drop_last() =~= path@.take(hi - 1));
        }
        hi -= 1;
    }
    let ghost cut = path@.take(hi as int);
    let mut lo: usize = hi;
    proof {
        assert(without_slashes(path@) == cut);
        assert(cut.take(lo as int) =~= cut);
        assert(base_name(cut.take(lo as int)) + path@.subrange(lo as int, hi as int) =~= base_name(
            cut,
        ));
    }
    while lo > 0 && path[lo - 1] != '/'
        invariant
            lo <= hi <= path@.len(),
            cut == path@.take(hi as int),
            base_name(cut) == base_name(cut.take(lo as int)) + path@.subrange(
                lo as int,
                hi as int,
            ),
        decreases lo,
    {
        proof {
            let a = cut.take(lo as int);
            assert(a.drop_last() =~= cut.take(lo - 1));
            assert(a.last() == path@[lo - 1]);
            assert(base_name(cut.take(lo - 1)).push(path@[lo - 1]) + path@.subrange(
                lo as int,
                hi as int,
            ) =~= base_name(cut.take(lo - 1)) + path@.subrange(lo - 1, hi as int));
        }
        lo -= 1;
    }
    proof {
        let a = cut.take(lo as int);
        assert(base_name(a) =~= Seq::empty());
        assert(base_name(cut) =~= path@.subrange(lo as int, hi as int));
    }
    let base = string_of(&path, lo, hi);
    let name = trim(base.as_str());
    if name.as_str().is_empty() {
        return None;
    }
    let key = lower(name.as_str());
    if key.as_str().is_empty() || same(key.as_str(), "global") {
        None
    } else {
        Some(key)
    }
}

/// Whether a text holds no slash, neither way.
pub open spec fn slashless(s: Seq<char>) -> bool {
    forall|i: int| 0 <= i < s.len() ==> #[trigger] s[i] != '/' && s[i] != '\\'
}

proof fn lemma_base_name(s: Seq<char>)
    requires
        forall|i: int| 0 <= i < s.len() ==> #[trigger] s[i] != '\\',
    ensures
        slashless(base_name(s)),
        slashless(s) ==> base_name(s) == s && without_slashes(s) == s,
        (forall|i: int| 0 <= i < s.len() ==> #[trigger] s[i] == '/') ==> base_name(s).len() == 0
            && without_slashes(s).len() == 0,
    decreases s.len(),
{
    if s.len() > 0 {
        lemma_base_name(s.drop_last());
        if s.last() != '/' {
            assert(s.drop_last().push(s.last()) =~= s);
        }
    }
}

proof fn lemma_without_slashes(s: Seq<char>)
    ensures
        without_slashes(s).len() <= s.len(),
        without_slashes(s) == s.take(without_slashes(s).len() as int),
    decreases s.len(),
{
    if s.len() > 0 && s.last() == '/' {
        lemma_without_slashes(s.drop_last());
        assert(s.drop_last().take(without_slashes(s).len() as int) =~= s.take(
            without_slashes(s).len() as int,
        ));
    } else {
        assert(s.take(s.len() as int) =~= s);
    }
}

/// A key is the lower-case form of the last part of the path, which is trimmed,
/// not empty and without a slash; it is neither empty nor `global`. Where that
/// form is trimmed, without a slash and lower case itself, the key of the key is
/// the key. What is blank, or nothing but slashes, has no key, and neither has
/// what is `global` in lower case.
pub proof fn law_project_key(raw: Seq<char>)
    ensures
        match project_key(raw) {
            Some(q) => {
                let base = project_base(raw);
                &&& q == lowercase(base)
                &&& base.len() > 0 && trimmed(base) == base && slashless(base)
                &&& q.len() > 0 && q != "global"@
                &&& slashless(q) && trimmed(q) == q && lowercase(q) == q ==> project_key(q)
                    == Some(q)
            },
            None => true,
        },
        trimmed(raw).len() == 0 ==> project_key(raw) is None,
        (forall|i: int|
            0 <= i < trimmed(raw).len() ==> #[trigger] trimmed(raw)[i] == '/' || trimmed(raw)[i]
                == '\\') ==> project_key(raw) is None,
        lowercase(project_base(raw)) == "global"@ ==> project_key(raw) is None,
{
    let path = trimmed(raw).map_values(|c: char| forward(c));
    let cut = without_slashes(path);
    lemma_without_slashes(path);
    lemma_base_name(cut);
    lemma_base_name(path);
    law_trimmed_stays_trimmed(base_name(cut));
    lemma_trimmed_part(base_name(cut));
    if cut.len() == 0 {
        assert(base_name(cut) =~= Seq::empty());
        assert(project_base(raw).len() == 0);
    }
    if forall|i: int|
        0 <= i < trimmed(raw).len() ==> #[trigger] trimmed(raw)[i] == '/' || trimmed(raw)[i]
            == '\\' {
        assert forall|i: int| 0 <= i < path.len() implies #[trigger] path[i] == '/' by {
            assert(path[i] == forward(trimmed(raw)[i]));
        }
    }
    if let Some(q) = project_key(raw) {
        if slashless(q) && trimmed(q) == q && lowercase(q) == q {
            assert(q.map_values(|c: char| forward(c)) =~= q);
            lemma_base_name(q);
        }
    }
}

/// The project of a request, if it names one.
pub open spec fn project_of(p: Option<Seq<char>>) -> Option<Seq<char>> {
    match p {
        Some(x) => project_key(x),
        None => None,
    }
}

pub fn project_from(p: &Option<String>) -> (r: Option<String>)
    ensures
        opt_view(r) == project_of(opt_view(*p)),
{
    match p {
        Some(x) => normalize_project(x.as_str()),
        None => None,
    }
}

/// The title of a memory that has none: its first forty characters.
pub open spec fn title_from(fragment: Seq<char>) -> Seq<char> {
    if fragment.len() > 40 {
        fragment.take(40) + "..."@
    } else {
        fragment
    }
}

pub fn generate_title(fragment: &str) -> (r: String)
    ensures
        r@ == title_from(fragment@),
{
    let v = chars_of(fragment);
    if v.len() > 40 {
        let mut out = string_of(&v, 0, 40);
        proof {
            assert(v@.subrange(0, 40) =~= fragment@.take(40));
        }
        out.append("...");
        out
    } else {
        fragment.to_owned()
    }
}

/// How many UTF-16 units a character takes.
pub open spec fn char_units(c: char) -> nat {
    if (c as int) < 0x10000 {
        1
    } else {
        2
    }
}

/// How many UTF-16 units a text takes.
pub open spec fn units(s: Seq<char>) -> nat
    decreases s.len(),
{
    if s.len() == 0 {
        0
    } else {
        units(s.drop_last()) + char_units(s.last())
    }
}

/// Whether a character ends a sentence.
pub open spec fn ends_sentence(c: char) -> bool {
    c == '.' || c == '!' || c == '?' || c == '\n'
}

/// The length of the first sentence, without what ends it, from `from` on.
pub open spec fn sentence_end(s: Seq<char>, from: int) -> int
    decreases s.len() - from,
{
    if from < 0 || from >= s.len() || ends_sentence(s[from]) {
        from
    } else {
        sentence_end(s, from + 1)
    }
}

/// The first `n` UTF-16 units of a text. A character that is cut in two is
/// replaced.
pub open spec fn unit_prefix(s: Seq<char>, n: int) -> Seq<char>
    decreases s.len(),
{
    if s.len() == 0 || n <= 0 {
        Seq::empty()
    } else if char_units(s[0]) > n {
        seq!['\u{FFFD}']
    } else {
        seq![s[0]] + unit_prefix(s.drop_first(), n - char_units(s[0]))
    }
}

/// The description of a memory that has none: itself if it is short, else its
/// first sentence if that is, else how it begins.
pub open spec fn description_from(fragment: Seq<char>) -> Seq<char> {
    let sentence = fragment.take(sentence_end(fragment, 0));
    if units(fragment) <= 80 {
        fragment
    } else if sentence.len() > 0 && units(sentence) <= 100 {
        trimmed(sentence) + "..."@
    } else {
        trimmed(unit_prefix(fragment, 80)) + "..."@
    }
}

fn units_of_char(c: char) -> (r: usize)
    ensures
        r == char_units(c),
        1 <= r <= 2,
{
    if (c as u32) < 0x10000 {
        1
    } else {
        2
    }
}

fn is_end(c: char) -> (r: bool)
    ensures
        r == ends_sentence(c),
{
    c == '.' || c == '!' || c == '?' || c == '\n'
}

/// Whether the first `n` characters take no more than `limit` units.
fn units_within(v: &Vec<char>, n: usize, limit: usize) -> (r: bool)
    requires
        n <= v@.len(),
        limit <= 1000,
    ensures
        r == (units(v@.take(n as int)) <= limit),
{
    let mut total: usize = 0;
    let mut i: usize = 0;
    proof {
        assert(v@.take(0) =~= Seq::empty());
    }
    while i < n
        invariant
            i <= n <= v@.len(),
            limit <= 1000,
            total <= limit,
            total == units(v@.take(i as int)),
        decreases n - i,
    {
        proof {
            let t = v@.take(i + 1);
            assert(t.drop_last() =~= v@.take(i as int));
            assert(t.last() == v@[i as int]);
        }
        total += units_of_char(v[i]);
        i += 1;
        if total > limit {
            proof {
                lemma_units_grow(v@.take(n as int), i as int);
                assert(v@.take(n as int).take(i as int) =~= v@.take(i as int));
            }
            return false;
        }
    }
    true
}

proof fn lemma_units_grow(s: Seq<char>, i: int)
    requires
        0 <= i <= s.len(),
    ensures
        units(s.take(i)) <= units(s),
    decreases s.len(),
{
    if i == s.len() {
        assert(s.take(i) =~= s);
    } else {
        lemma_units_grow(s.drop_last(), i);
        assert(s.drop_last().take(i) =~= s.take(i));
    }
}

fn prefix_units(v: &Vec<char>, limit: usize) -> (r: Vec<char>)
    ensures
        r@ == unit_prefix(v@, limit as int),
{
    let mut out: Vec<char> = Vec::new();
    let mut left: usize = limit;
    let mut i: usize = 0;
    proof {
        assert(v@.skip(0) =~= v@);
        assert(out@ + unit_prefix(v@.skip(0), left as int) =~= unit_prefix(v@, limit as int));
    }
    while i < v.len() && left > 0
        invariant
            i <= v@.len(),
            out@ + unit_prefix(v@.skip(i as int), left as int) == unit_prefix(v@, limit as int),
        decreases v@.len() - i,
    {
        let ghost rest = v@.skip(i as int);
        let n: usize = units_of_char(v[i]);
        proof {
            assert(rest[0] == v@[i as int]);
            assert(rest.drop_first() =~= v@.skip(i + 1));
        }
        if n > left {
            let ghost before = out@;
            out.push('\u{FFFD}');
            proof {
                assert(out@ =~= before + seq!['\u{FFFD}']);
            }
            return out;
        }
        let ghost before = out@;
        out.push(v[i]);
        left -= n;
        i += 1;
        proof {
            assert(out@ + unit_prefix(v@.skip(i as int), left as int) =~= before + (seq![rest[0]]
                + unit_prefix(rest.drop_first(), left as int)));
        }
    }
    proof {
        assert(unit_prefix(v@.skip(i as int), left as int) =~= Seq::empty());
        assert(out@ =~= unit_prefix(v@, limit as int));
    }
    out
}

pub fn generate_description(fragment: &str) -> (r: String)
    ensures
        r@ == description_from(fragment@),
{
    let v = chars_of(fragment);
    proof {
        assert(v@.take(v@.len() as int) =~= fragment@);
    }
    if units_within(&v, v.len(), 80) {
        return fragment.to_owned();
    }
    let mut n: usize = 0;
    while n < v.len() && !is_end(v[n])
        invariant
            n <= v@.len(),
            v@ == fragment@,
            sentence_end(fragment@, 0) == sentence_end(fragment@, n as int),
        decreases v@.len() - n,
    {
        n += 1;
    }
    proof {
        assert(sentence_end(fragment@, 0) == n);
    }
    if n > 0 && units_within(&v, n, 100) {
        let sentence = string_of(&v, 0, n);
        proof {
            assert(v@.subrange(0, n as int) =~= fragment@.take(n as int));
        }
        let mut out = trim(sentence.as_str());
        out.append("...");
        return out;
    }
    let p = prefix_units(&v, 80);
    let start = string_of(&p, 0, p.len());
    proof {
        assert(p@.subrange(0, p@.len() as int) =~= p@);
    }
    let mut out = trim(start.as_str());
    out.append("...");
    out
}

/// How many of the words of a query a memory holds.
pub open spec fn relevance(m: MemoryView, query: Seq<char>) -> nat {
    words(query).filter(
        |w: Seq<char>| part_of(w, lowercase(m.title + " "@ + m.fragment)),
    ).len()
}

pub fn relevance_of(m: &Memory, query_words: &Vec<String>, Ghost(query): Ghost<Seq<char>>) -> (r:
    usize)
    requires
        views(query_words@) == words(query),
    ensures
        r == relevance(m@, query),
{
    let mut text = m.title.clone();
    text.append(" ");
    text.append(m.fragment.as_str());
    let low = lower(text.as_str());
    let ghost all = lowercase(m@.title + " "@ + m@.fragment);
    count(
        query_words,
        |w: &String| -> (b: bool)
            ensures
                b == part_of(w@, all)
            { contains(low.as_str(), w.as_str()) },
        Ghost(|w: Seq<char>| part_of(w, all)),
    )
}

/// The description of a memory, if it has one.
pub open spec fn described(m: MemoryView) -> Option<Seq<char>> {
    if m.description.len() == 0 {
        None
    } else {
        Some(m.description)
    }
}

pub fn description_of(m: &Memory) -> (r: Option<String>)
    ensures
        opt_view(r) == described(m@),
{
    if m.description.as_str().is_empty() {
        None
    } else {
        Some(m.description.clone())
    }
}

/// A text, or another where there is none.
pub open spec fn text_or(t: Option<Seq<char>>, other: Seq<char>) -> Seq<char> {
    match t {
        Some(x) => x,
        None => other,
    }
}

pub fn text_or_else(t: &Option<String>, other: &str) -> (r: String)
    ensures
        r@ == text_or(opt_view(*t), other@),
{
    match t {
        Some(x) => x.clone(),
        None => other.to_owned(),
    }
}

/// Where a memory belongs: to a project.
pub open spec fn scope_project_text(p: Seq<char>) -> Seq<char> {
    " (project: "@ + p + ")"@
}

pub fn scope_project(p: &str) -> (r: String)
    ensures
        r@ == scope_project_text(p@),
{
    let mut out = " (project: ".to_owned();
    out.append(p);
    out.append(")");
    out
}

/// Where a memory belongs, as text.
pub open spec fn scope_text(project: Option<Seq<char>>) -> Seq<char> {
    match project {
        Some(p) => scope_project_text(p),
        None => " (global)"@,
    }
}

pub fn scope_string(project: &Option<String>) -> (r: String)
    ensures
        r@ == scope_text(opt_view(*project)),
{
    match project {
        Some(p) => scope_project(p.as_str()),
        None => " (global)".to_owned(),
    }
}

/// A memory that nothing has happened to: live, fully trusted, never read.
pub open spec fn fresh_memory(
    op: OperationId,
    title: Seq<char>,
    fragment: Seq<char>,
    description: Seq<char>,
    project: Option<Seq<char>>,
    now: u64,
) -> MemoryView {
    MemoryView {
        id: new_entity(op),
        external_alias: Some(new_name(op)),
        title,
        fragment,
        description,
        fragment_type: FragmentType::Fact,
        project,
        source: MemorySource::Ai,
        confidence: Score(UNIT),
        quality_score: None,
        lifecycle: MemoryLifecycle::Live,
        tags: Seq::empty(),
        associated_with: Seq::empty(),
        relations: Seq::empty(),
        parent_id: None,
        child_ids: Seq::empty(),
        session_id: None,
        task_type: None,
        related_guides: Seq::empty(),
        evidence: Seq::empty(),
        access_count: 0,
        last_accessed_at: None,
        positive_feedback: 0,
        negative_feedback: 0,
        negative_hits: 0,
        refinement_count: 0,
        distill_candidate: false,
        entity_revision: EntityRevision(0),
        document_revision: DocumentRevision(0),
        eligibility_revision: EligibilityRevision(0),
        created_at: Instant(now),
        updated_at: Instant(now),
        raw_created: None,
        unknown_fields: Seq::empty(),
    }
}

/// A new memory of the request.
pub fn make_memory(
    envelope: &IpcEnvelope,
    title: String,
    fragment: String,
    description: String,
    project: Option<String>,
    now: u64,
) -> (r: Memory)
    ensures
        r@ == fresh_memory(
            envelope.operation_id,
            title@,
            fragment@,
            description@,
            opt_view(project),
            now,
        ),
{
    let r = Memory {
        id: new_entity_id(envelope),
        external_alias: Some(ExternalAlias::new(new_legacy_id(envelope))),
        title,
        fragment,
        description,
        fragment_type: FragmentType::Fact,
        project,
        source: MemorySource::Ai,
        confidence: Score(UNIT),
        quality_score: None,
        lifecycle: MemoryLifecycle::Live,
        tags: Vec::new(),
        associated_with: Vec::new(),
        relations: Vec::new(),
        parent_id: None,
        child_ids: Vec::new(),
        session_id: None,
        task_type: None,
        related_guides: Vec::new(),
        evidence: Vec::new(),
        access_count: 0,
        last_accessed_at: None,
        positive_feedback: 0,
        negative_feedback: 0,
        negative_hits: 0,
        refinement_count: 0,
        distill_candidate: false,
        entity_revision: EntityRevision::new(0),
        document_revision: DocumentRevision::new(0),
        eligibility_revision: EligibilityRevision::new(0),
        created_at: Instant::new(now),
        updated_at: Instant::new(now),
        raw_created: None,
        unknown_fields: Vec::new(),
    };
    proof {
        assert(r@ =~= fresh_memory(
            envelope.operation_id,
            title@,
            fragment@,
            description@,
            opt_view(project),
            now,
        ));
    }
    r
}

// ---------------------------------------------------------------------------
// Commands
// ---------------------------------------------------------------------------

/// What comes of the request's `n`th command. Under an epoch that is not open it
/// is refused.
pub open spec fn issued(d: DispatcherView, env: IpcEnvelope, n: nat, cmd: DomainCommandView) -> (
    DispatcherView,
    Result<CommandReceiptView, DomainErrorView>,
) {
    if d.admits(env) {
        let (store, r) = stored(d.store, env.sub_context(n), cmd);
        (DispatcherView { store, ..d }, r)
    } else {
        (d, Err(stale()))
    }
}

/// Issues the request's `n`th command.
pub fn issue(disp: &mut Dispatcher, envelope: &IpcEnvelope, n: u32, cmd: &DomainCommand) -> (r:
    DomainResult<()>)
    requires
        old(disp)@.wf(),
        old(disp)@.store.room(cmd@.weight()),
    ensures
        final(disp)@.wf(),
        final(disp)@ == issued(old(disp)@, *envelope, n as nat, cmd@).0,
        match issued(old(disp)@, *envelope, n as nat, cmd@).1 {
            Ok(_) => r is Ok,
            Err(e) => r is Err && r->Err_0@ == e,
        },
{
    if !disp.admits_commands(envelope) {
        return Err(stale_error());
    }
    let ctx = envelope.sub_command_ctx(n);
    match disp.repo.apply(&ctx, cmd) {
        Ok(_) => Ok(()),
        Err(e) => Err(e),
    }
}

/// What reading memories leaves behind: each counts the read and is trusted a
/// little more. Reading none leaves nothing.
pub open spec fn read_by(
    d: DispatcherView,
    env: IpcEnvelope,
    ids: Seq<EntityId>,
    context: Option<Seq<char>>,
) -> (DispatcherView, Option<DomainErrorView>) {
    if ids.len() == 0 {
        (d, None)
    } else {
        let (after, r) = issued(
            d,
            env,
            0,
            DomainCommandView::Access { memory_ids: ids, context },
        );
        match r {
            Ok(_) => (after, None),
            Err(e) => (after, Some(e)),
        }
    }
}

pub fn record_access(
    disp: &mut Dispatcher,
    envelope: &IpcEnvelope,
    ids: &Vec<EntityId>,
    context: &Option<String>,
) -> (r: DomainResult<()>)
    requires
        old(disp)@.wf(),
        old(disp)@.store.room(ids@.len() as int),
    ensures
        final(disp)@.wf(),
        final(disp)@ == read_by(old(disp)@, *envelope, ids@, opt_view(*context)).0,
        match read_by(old(disp)@, *envelope, ids@, opt_view(*context)).1 {
            None => r is Ok,
            Some(e) => r is Err && r->Err_0@ == e,
        },
{
    if ids.len() == 0 {
        return Ok(());
    }
    let cmd = DomainCommand::Access { memory_ids: clone_ids(ids), context: context.clone() };
    issue(disp, envelope, 0, &cmd)
}

} // verus!
