//! Context from outside sources: the code graph, the note vault, and the
//! vector index.

use vstd::prelude::*;

use crate::number::{decimal, decimal_spec};
use crate::paths::{components, components_spec, is_absolute, is_absolute_spec};
use crate::text::{
    byte_len, byte_len_spec, fields, fields_spec, has_prefix, join, join_spec, lines, lines_spec,
    opt_view, replace, replace_spec, rsplit_once, rsplit_once_spec, same_text, starts_with,
    strip_prefix, trim, trim_class, trim_class_spec, trim_spec, truncate, truncated, views,
    CharClass,
};

verus! {

/// How many bytes of a query the code graph is asked.
pub const GRAPHIFY_QUERY_BYTES: usize = 240;

/// How many lines of the code graph's answer are read.
pub const GRAPHIFY_MAX_RESULTS: usize = 10;

/// How many notes of the vault are taken.
pub const VAULT_MAX_RESULTS: usize = 8;

/// How many lines of the vector index's answer are read.
pub const PGVECTOR_MAX_RESULTS: usize = 8;

/// How many lines of a note are searched for its title.
pub const TITLE_LINES: usize = 10;

/// One piece of context from an outside source.
#[derive(Debug)]
pub struct ExternalEnrichment {
    pub content: String,
    pub source: &'static str,
    pub source_id: Option<String>,
}

#[verifier::ext_equal]
pub struct EnrichmentView {
    pub content: Seq<char>,
    pub source: Seq<char>,
    pub source_id: Option<Seq<char>>,
}

impl View for ExternalEnrichment {
    type V = EnrichmentView;

    open spec fn view(&self) -> EnrichmentView {
        EnrichmentView {
            content: self.content@,
            source: self.source@,
            source_id: opt_view(self.source_id),
        }
    }
}

pub open spec fn enrichment_views(v: Seq<ExternalEnrichment>) -> Seq<EnrichmentView> {
    v.map_values(|e: ExternalEnrichment| e@)
}

// ---------------------------------------------------------------------------
// The code graph and the vector index
// ---------------------------------------------------------------------------

/// Whether the query can be cut where the limit lies: it is short enough, or a
/// character ends there.
pub open spec fn query_can_be_cut(query: Seq<char>) -> bool {
    byte_len_spec(query) <= GRAPHIFY_QUERY_BYTES || exists|n: int|
        0 <= n <= query.len() && byte_len_spec(#[trigger] query.take(n)) == GRAPHIFY_QUERY_BYTES
}

/// The query as the code graph is asked: its first bytes, up to the limit.
pub fn graphify_query(query: &str) -> (res: String)
    requires
        query_can_be_cut(query@),
    ensures
        res@ == (if byte_len_spec(query@) > GRAPHIFY_QUERY_BYTES {
            truncated(query@, GRAPHIFY_QUERY_BYTES as nat)
        } else {
            query@
        }),
{
    if byte_len(query) > GRAPHIFY_QUERY_BYTES {
        truncate(query, GRAPHIFY_QUERY_BYTES)
    } else {
        query.to_string()
    }
}

/// How the code graph is asked: for this query, in its compact form, within so
/// many tokens.
pub fn graphify_arguments(query: &str, budget_tokens: usize) -> (res: Vec<String>)
    ensures
        views(res@) == seq![
            "query"@,
            query@,
            "--format"@,
            "compact"@,
            "--budget"@,
            decimal_spec(budget_tokens as nat),
        ],
{
    let mut res: Vec<String> = Vec::new();
    res.push("query".to_string());
    res.push(query.to_string());
    res.push("--format".to_string());
    res.push("compact".to_string());
    res.push("--budget".to_string());
    res.push(decimal(budget_tokens as u64));
    assert(views(res@) =~= seq![
        "query"@,
        query@,
        "--format"@,
        "compact"@,
        "--budget"@,
        decimal_spec(budget_tokens as nat),
    ]);
    res
}

/// The first `n` of these, or all where there are fewer.
pub open spec fn at_most<A>(s: Seq<A>, n: int) -> Seq<A> {
    if s.len() > n {
        s.take(n)
    } else {
        s
    }
}

/// The trimmed lines among these that hold something. Lines that describe nodes
/// are left out where asked.
pub open spec fn filled(all: Seq<Seq<char>>, without_nodes: bool) -> Seq<Seq<char>>
    decreases all.len(),
{
    if all.len() == 0 {
        all
    } else {
        let before = filled(all.drop_last(), without_nodes);
        let line = trim_spec(all.last());
        if line.len() == 0 || (without_nodes && has_prefix(line, "NODE"@)) {
            before
        } else {
            before.push(line)
        }
    }
}

/// Each line as a piece of context from this source.
pub open spec fn as_enrichments(all: Seq<Seq<char>>, source: Seq<char>) -> Seq<EnrichmentView> {
    all.map_values(|content: Seq<char>| EnrichmentView { content, source, source_id: None })
}

/// What the code graph's answer holds besides its nodes.
pub open spec fn graphify_results_spec(stdout: Seq<char>) -> Seq<EnrichmentView> {
    as_enrichments(
        filled(at_most(lines_spec(stdout), GRAPHIFY_MAX_RESULTS as int), true),
        "graphify"@,
    )
}

/// What the vector index answers.
pub open spec fn pgvector_results_spec(stdout: Seq<char>) -> Seq<EnrichmentView> {
    as_enrichments(
        filled(at_most(lines_spec(stdout), PGVECTOR_MAX_RESULTS as int), false),
        "pgvector"@,
    )
}

fn filled_lines(stdout: &str, limit: usize, without_nodes: bool) -> (res: Vec<String>)
    ensures
        views(res@) == filled(at_most(lines_spec(stdout@), limit as int), without_nodes),
{
    let all = lines(stdout);
    let ghost texts = at_most(lines_spec(stdout@), limit as int);
    let count = if all.len() > limit {
        limit
    } else {
        all.len()
    };
    assert(views(all@).len() == all@.len());
    let mut res: Vec<String> = Vec::new();
    let mut i: usize = 0;
    assert(views(res@) =~= filled(texts.take(0), without_nodes));
    while i < count
        invariant
            i <= count <= all@.len(),
            texts.len() == count,
            forall|k: int| 0 <= k < count ==> #[trigger] texts[k] == all@[k]@,
            views(res@) == filled(texts.take(i as int), without_nodes),
        decreases count - i,
    {
        let ghost done = views(res@);
        assert(texts.take(i + 1).drop_last() =~= texts.take(i as int));
        assert(texts.take(i + 1).last() == all@[i as int]@);
        let line = trim(all[i].as_str());
        if !line.as_str().is_empty() && !(without_nodes && starts_with(line.as_str(), "NODE")) {
            let ghost text = line@;
            res.push(line);
            assert(views(res@) =~= done.push(text));
        }
        i += 1;
    }
    assert(texts.take(i as int) =~= texts);
    res
}

fn enrichments_of(all: &Vec<String>, source: &'static str) -> (res: Vec<ExternalEnrichment>)
    ensures
        enrichment_views(res@) == as_enrichments(views(all@), source@),
{
    let ghost want = as_enrichments(views(all@), source@);
    let mut res: Vec<ExternalEnrichment> = Vec::new();
    let mut i: usize = 0;
    while i < all.len()
        invariant
            i <= all@.len(),
            want == as_enrichments(views(all@), source@),
            enrichment_views(res@) =~= want.take(i as int),
        decreases all@.len() - i,
    {
        let ghost done = enrichment_views(res@);
        let one = ExternalEnrichment { content: all[i].clone(), source, source_id: None };
        let ghost seen = one@;
        assert(want[i as int] == seen);
        res.push(one);
        assert(enrichment_views(res@) =~= done.push(seen));
        i += 1;
    }
    assert(want.take(i as int) =~= want);
    res
}

pub fn graphify_results(stdout: &str) -> (res: Vec<ExternalEnrichment>)
    ensures
        enrichment_views(res@) == graphify_results_spec(stdout@),
{
    enrichments_of(&filled_lines(stdout, GRAPHIFY_MAX_RESULTS, true), "graphify")
}

pub fn pgvector_results(stdout: &str) -> (res: Vec<ExternalEnrichment>)
    ensures
        enrichment_views(res@) == pgvector_results_spec(stdout@),
{
    enrichments_of(&filled_lines(stdout, PGVECTOR_MAX_RESULTS, false), "pgvector")
}

// ---------------------------------------------------------------------------
// The vault
// ---------------------------------------------------------------------------

/// The paths in a list of notes, one in each line.
pub fn vault_paths(stdout: &str) -> (res: Vec<String>)
    ensures
        views(res@) == filled(at_most(lines_spec(stdout@), VAULT_MAX_RESULTS as int), false),
{
    filled_lines(stdout, VAULT_MAX_RESULTS, false)
}

/// The command that searches the vault where no faster search is at hand.
pub open spec fn vault_search_spec(query: Seq<char>) -> Seq<char> {
    "find /sharedssd/vault -name '*.md' -exec grep -li -m1 '"@ + replace_spec(
        query,
        '\'',
        "'\\''"@,
    ) + "' {} \\; 2>/dev/null | head -8"@
}

pub fn vault_search_command(query: &str) -> (res: String)
    ensures
        res@ == vault_search_spec(query@),
{
    "find /sharedssd/vault -name '*.md' -exec grep -li -m1 '".to_string().concat(
        replace(query, '\'', "'\\''").as_str(),
    ).concat("' {} \\; 2>/dev/null | head -8")
}

/// The title in these lines, which lie inside a note's front matter or before
/// it: the first `title:` before the front matter ends.
pub open spec fn title_spec(all: Seq<Seq<char>>, inside: bool) -> Option<Seq<char>>
    decreases all.len(),
{
    if all.len() == 0 {
        None
    } else {
        let line = trim_spec(all[0]);
        if line == "---"@ {
            if inside {
                None
            } else {
                title_spec(all.drop_first(), true)
            }
        } else if inside && has_prefix(line, "title:"@) {
            Some(
                trim_class_spec(
                    trim_spec(line.skip("title:"@.len() as int)),
                    CharClass::Only('"'),
                ),
            )
        } else {
            title_spec(all.drop_first(), inside)
        }
    }
}

/// The title in a note's front matter, from its first lines.
pub fn extract_vault_title(first_lines: &Vec<String>) -> (res: Option<String>)
    ensures
        opt_view(res) == title_spec(views(first_lines@), false),
{
    let ghost all = views(first_lines@);
    let mut inside = false;
    let mut i: usize = 0;
    assert(all.skip(0) =~= all);
    while i < first_lines.len()
        invariant
            i <= first_lines@.len(),
            all == views(first_lines@),
            title_spec(all, false) == title_spec(all.skip(i as int), inside),
        decreases first_lines@.len() - i,
    {
        assert(all.skip(i as int)[0] == first_lines@[i as int]@);
        assert(all.skip(i as int).drop_first() =~= all.skip(i + 1));
        let line = trim(first_lines[i].as_str());
        if same_text(line.as_str(), "---") {
            if inside {
                return None;
            }
            inside = true;
        } else if inside {
            if let Some(rest) = strip_prefix(line.as_str(), "title:") {
                return Some(
                    trim_class(trim(rest.as_str()).as_str(), CharClass::Only('"')),
                );
            }
        }
        i += 1;
    }
    None
}

/// The name of the file that a path leads to.
pub open spec fn file_name_spec(path: Seq<char>) -> Option<Seq<char>> {
    let parts = components_spec(path);
    if parts.len() == 0 || parts.last() == "/"@ || parts.last() == "."@ || parts.last() == ".."@ {
        None
    } else {
        Some(parts.last())
    }
}

/// A file's name without its last ending.
pub open spec fn stem_of(name: Seq<char>) -> Seq<char> {
    match rsplit_once_spec(name, "."@) {
        Some((before, _)) => if before.len() > 0 {
            before
        } else {
            name
        },
        None => name,
    }
}

/// What a note is called where it has no title.
pub open spec fn fallback_title(path: Seq<char>) -> Seq<char> {
    match file_name_spec(path) {
        Some(name) => stem_of(name),
        None => "unknown"@,
    }
}

fn file_title(path: &str) -> (res: String)
    ensures
        res@ == fallback_title(path@),
{
    let parts = components(path);
    let n = parts.len();
    assert(views(parts@).len() == n);
    if n == 0 {
        return "unknown".to_string();
    }
    assert(components_spec(path@).last() == parts@[n - 1]@);
    let name = parts[n - 1].as_str();
    if same_text(name, "/") || same_text(name, ".") || same_text(name, "..") {
        return "unknown".to_string();
    }
    match rsplit_once(name, ".") {
        Some((before, _)) => if before.as_str().is_empty() {
            name.to_string()
        } else {
            before
        },
        None => name.to_string(),
    }
}

/// Whether a part of a path leads somewhere.
pub open spec fn leads_on(part: Seq<char>) -> bool {
    part.len() > 0 && part != "."@
}

/// Which of these parts, from the `n`th on, is the first that leads somewhere.
pub open spec fn next_step(parts: Seq<Seq<char>>, n: int) -> Option<int>
    decreases parts.len() - n,
{
    if n >= parts.len() {
        None
    } else if leads_on(parts[n]) {
        Some(n)
    } else {
        next_step(parts, n + 1)
    }
}

/// How many of these parts, counted down from `n`, there are up to the last
/// that leads somewhere.
pub open spec fn steps_end(parts: Seq<Seq<char>>, n: int) -> int
    decreases n,
{
    if n <= 0 || leads_on(parts[n - 1]) {
        n
    } else {
        steps_end(parts, n - 1)
    }
}

/// The path as it is seen from the vault's root, and as it is where it lies
/// elsewhere.
pub open spec fn below_vault(path: Seq<char>) -> Seq<char> {
    let parts = fields_spec(path, CharClass::Only('/'));
    if !is_absolute_spec(path) {
        path
    } else {
        match next_step(parts, 0) {
            Some(first) => if parts[first] == "sharedssd"@ {
                match next_step(parts, first + 1) {
                    Some(second) => if parts[second] == "vault"@ {
                        match next_step(parts, second + 1) {
                            Some(start) => join_spec(
                                parts.subrange(start, steps_end(parts, parts.len() as int)),
                                "/"@,
                            ),
                            None => Seq::empty(),
                        }
                    } else {
                        path
                    },
                    None => path,
                }
            } else {
                path
            },
            None => path,
        }
    }
}

fn find_step(parts: &Vec<String>, from: usize) -> (res: Option<usize>)
    requires
        from <= parts@.len(),
    ensures
        match res {
            Some(i) => next_step(views(parts@), from as int) == Some(i as int) && from <= i
                < parts.len() && leads_on(views(parts@)[i as int]),
            None => next_step(views(parts@), from as int) is None,
        },
{
    let ghost all = views(parts@);
    let mut i: usize = from;
    while i < parts.len()
        invariant
            from <= i <= parts@.len(),
            all == views(parts@),
            next_step(all, from as int) == next_step(all, i as int),
        decreases parts@.len() - i,
    {
        assert(all[i as int] == parts@[i as int]@);
        if !parts[i].as_str().is_empty() && !same_text(parts[i].as_str(), ".") {
            return Some(i);
        }
        i += 1;
    }
    None
}

fn relative_to_vault(path: &str) -> (res: String)
    ensures
        res@ == below_vault(path@),
{
    if !is_absolute(path) {
        return path.to_string();
    }
    let parts = fields(path, CharClass::Only('/'));
    let ghost all = views(parts@);
    let first = match find_step(&parts, 0) {
        Some(first) => first,
        None => {
            return path.to_string();
        },
    };
    assert(all[first as int] == parts@[first as int]@);
    if !same_text(parts[first].as_str(), "sharedssd") {
        return path.to_string();
    }
    let second = match find_step(&parts, first + 1) {
        Some(second) => second,
        None => {
            return path.to_string();
        },
    };
    assert(all[second as int] == parts@[second as int]@);
    if !same_text(parts[second].as_str(), "vault") {
        return path.to_string();
    }
    let start = match find_step(&parts, second + 1) {
        Some(start) => start,
        None => {
            let empty = String::new();
            assert(empty@ =~= Seq::<char>::empty());
            return empty;
        },
    };
    let mut end: usize = parts.len();
    while end > start + 1 && (parts[end - 1].as_str().is_empty() || same_text(
        parts[end - 1].as_str(),
        ".",
    ))
        invariant
            start < end <= parts@.len(),
            start < parts.len(),
            all == views(parts@),
            steps_end(all, all.len() as int) == steps_end(all, end as int),
        decreases end,
    {
        assert(all[end - 1] == parts@[end - 1]@);
        end -= 1;
    }
    assert(all[end - 1] == parts@[end - 1]@);
    assert(leads_on(all[end - 1]));
    let mut kept: Vec<String> = Vec::new();
    let mut i: usize = start;
    assert(views(kept@) =~= all.subrange(start as int, start as int));
    while i < end
        invariant
            start <= i <= end <= parts@.len(),
            all == views(parts@),
            views(kept@) =~= all.subrange(start as int, i as int),
        decreases end - i,
    {
        let ghost done = views(kept@);
        kept.push(parts[i].clone());
        assert(views(kept@) =~= done.push(parts@[i as int]@));
        i += 1;
    }
    join(&kept, "/")
}

/// A note of the vault as a piece of context: its title and where it lies.
pub open spec fn note_spec(path: Seq<char>, title: Option<Seq<char>>) -> EnrichmentView {
    let name = match title {
        Some(title) => title,
        None => fallback_title(path),
    };
    EnrichmentView {
        content: "["@ + name + "]("@ + below_vault(path) + ")"@,
        source: "vault"@,
        source_id: Some(below_vault(path)),
    }
}

/// A note of the vault, given the first lines of its file.
pub fn vault_note(path: &str, first_lines: &Vec<String>) -> (res: ExternalEnrichment)
    ensures
        res@ == note_spec(path@, title_spec(views(first_lines@), false)),
{
    let name = match extract_vault_title(first_lines) {
        Some(title) => title,
        None => file_title(path),
    };
    let place = relative_to_vault(path);
    ExternalEnrichment {
        content: "[".to_string().concat(name.as_str()).concat("](").concat(place.as_str()).concat(
            ")",
        ),
        source: "vault",
        source_id: Some(place),
    }
}

// ---------------------------------------------------------------------------
// Entries
// ---------------------------------------------------------------------------

/// The category of a memory entry.
#[derive(Debug, Clone, Copy, PartialEq, Eq, Structural)]
pub enum MemoryCategory {
    /// Context that a source outside the memory gave.
    External,
}

/// What a memory entry is made of. The collection tells which of the outside
/// sources it comes from.
#[derive(Debug)]
pub struct EntryDraft {
    pub category: MemoryCategory,
    pub collection: String,
    pub content: String,
    pub source: &'static str,
    pub tags: Vec<String>,
}

#[verifier::ext_equal]
pub struct EntryView {
    pub category: MemoryCategory,
    pub collection: Seq<char>,
    pub content: Seq<char>,
    pub source: Seq<char>,
    pub tags: Seq<Seq<char>>,
}

impl View for EntryDraft {
    type V = EntryView;

    open spec fn view(&self) -> EntryView {
        EntryView {
            category: self.category,
            collection: self.collection@,
            content: self.content@,
            source: self.source@,
            tags: views(self.tags@),
        }
    }
}

pub open spec fn entry_views(v: Seq<EntryDraft>) -> Seq<EntryView> {
    v.map_values(|e: EntryDraft| e@)
}

/// A piece of context as a memory entry, marked as one from outside.
pub open spec fn entry_of(
    e: EnrichmentView,
    source_label: Seq<char>,
    category_label: Seq<char>,
) -> EntryView {
    EntryView {
        category: MemoryCategory::External,
        collection: category_label,
        content: "["@ + source_label + "] "@ + e.content,
        source: e.source,
        tags: (match e.source_id {
            Some(id) => seq![id],
            None => Seq::empty(),
        }) + seq![source_label, "external_enrichment"@],
    }
}

pub open spec fn entries_of(
    all: Seq<EnrichmentView>,
    source_label: Seq<char>,
    category_label: Seq<char>,
) -> Seq<EntryView> {
    all.map_values(|e: EnrichmentView| entry_of(e, source_label, category_label))
}

fn make_entry(e: &ExternalEnrichment, source_label: &str, category_label: &str) -> (res: EntryDraft)
    ensures
        res@ == entry_of(e@, source_label@, category_label@),
{
    let mut tags: Vec<String> = Vec::new();
    if let Some(id) = &e.source_id {
        tags.push(id.clone());
    }
    tags.push(source_label.to_string());
    tags.push("external_enrichment".to_string());
    let res = EntryDraft {
        category: MemoryCategory::External,
        collection: category_label.to_string(),
        content: "[".to_string().concat(source_label).concat("] ").concat(e.content.as_str()),
        source: e.source,
        tags,
    };
    assert(res@ =~= entry_of(e@, source_label@, category_label@));
    res
}

/// Turns what a source gave into memory entries, and leaves nothing behind.
pub fn entries_from_enrichments(
    enrichments: &mut Vec<ExternalEnrichment>,
    source_label: &str,
    category_label: &str,
) -> (res: Vec<EntryDraft>)
    ensures
        final(enrichments)@.len() == 0,
        entry_views(res@) == entries_of(
            enrichment_views(old(enrichments)@),
            source_label@,
            category_label@,
        ),
{
    let ghost all = entries_of(enrichment_views(enrichments@), source_label@, category_label@);
    let mut taken: Vec<ExternalEnrichment> = Vec::new();
    taken.append(enrichments);
    assert(taken@ =~= old(enrichments)@);
    let mut res: Vec<EntryDraft> = Vec::new();
    let mut i: usize = 0;
    while i < taken.len()
        invariant
            i <= taken@.len(),
            all == entries_of(enrichment_views(taken@), source_label@, category_label@),
            entry_views(res@) =~= all.take(i as int),
        decreases taken@.len() - i,
    {
        let ghost done = entry_views(res@);
        let one = make_entry(&taken[i], source_label, category_label);
        let ghost seen = one@;
        assert(all[i as int] == seen);
        res.push(one);
        assert(entry_views(res@) =~= done.push(seen));
        i += 1;
    }
    assert(all.take(i as int) =~= all);
    res
}

/// Which sources are asked.
#[derive(Debug, Clone, Copy)]
pub struct EnabledSources {
    pub graphify: bool,
    pub vault: bool,
    pub pgvector: bool,
}

/// How request context is compressed.
#[derive(Debug, Clone, Copy, PartialEq, Eq, Structural)]
pub enum ContextCompressionMode {
    Off,
    GraphCompact,
}

/// The sources that are asked under this mode: those that are configured, and
/// the code graph where context is compiled from it.
pub fn enabled_sources(mode: ContextCompressionMode, configured: EnabledSources) -> (res:
    EnabledSources)
    ensures
        res == (EnabledSources {
            graphify: configured.graphify || mode is GraphCompact,
            ..configured
        }),
{
    EnabledSources {
        graphify: configured.graphify || mode == ContextCompressionMode::GraphCompact,
        vault: configured.vault,
        pgvector: configured.pgvector,
    }
}

/// These entries, where the source is asked.
pub open spec fn where_enabled(enabled: bool, entries: Seq<EntryView>) -> Seq<EntryView> {
    if enabled {
        entries
    } else {
        Seq::empty()
    }
}

/// The entries of all sources that are asked: the code graph's, the vault's,
/// then the vector index's.
pub open spec fn context_entries(
    enabled: EnabledSources,
    graphify: Seq<EnrichmentView>,
    vault: Seq<EnrichmentView>,
    pgvector: Seq<EnrichmentView>,
) -> Seq<EntryView> {
    where_enabled(enabled.graphify, entries_of(graphify, "graphify"@, "graphify-codebase"@))
        + where_enabled(enabled.vault, entries_of(vault, "vault"@, "vault-obsidian"@))
        + where_enabled(enabled.pgvector, entries_of(pgvector, "pgvector"@, "pgvector-rag"@))
}

/// Puts together what the sources answered. A source that failed answers
/// nothing.
pub fn enrich_context(
    enabled: EnabledSources,
    graphify: Vec<ExternalEnrichment>,
    vault: Vec<ExternalEnrichment>,
    pgvector: Vec<ExternalEnrichment>,
) -> (res: Vec<EntryDraft>)
    ensures
        entry_views(res@) == context_entries(
            enabled,
            enrichment_views(graphify@),
            enrichment_views(vault@),
            enrichment_views(pgvector@),
        ),
{
    let ghost given = (
        enrichment_views(graphify@),
        enrichment_views(vault@),
        enrichment_views(pgvector@),
    );
    let mut graphify = graphify;
    let mut vault = vault;
    let mut pgvector = pgvector;
    let mut all: Vec<EntryDraft> = Vec::new();
    if enabled.graphify {
        all = entries_from_enrichments(&mut graphify, "graphify", "graphify-codebase");
    }
    let ghost one = entry_views(all@);
    assert(one =~= where_enabled(
        enabled.graphify,
        entries_of(given.0, "graphify"@, "graphify-codebase"@),
    ));
    if enabled.vault {
        let mut more = entries_from_enrichments(&mut vault, "vault", "vault-obsidian");
        let ghost added = entry_views(more@);
        all.append(&mut more);
        assert(entry_views(all@) =~= one + added);
    }
    let ghost two = entry_views(all@);
    assert(two =~= one + where_enabled(
        enabled.vault,
        entries_of(given.1, "vault"@, "vault-obsidian"@),
    ));
    if enabled.pgvector {
        let mut more = entries_from_enrichments(&mut pgvector, "pgvector", "pgvector-rag");
        let ghost added = entry_views(more@);
        all.append(&mut more);
        assert(entry_views(all@) =~= two + added);
    }
    assert(entry_views(all@) =~= two + where_enabled(
        enabled.pgvector,
        entries_of(given.2, "pgvector"@, "pgvector-rag"@),
    ));
    all
}

// ---------------------------------------------------------------------------
// Laws
// ---------------------------------------------------------------------------

proof fn lemma_filled_count(all: Seq<Seq<char>>, without_nodes: bool)
    ensures
        filled(all, without_nodes).len() <= all.len(),
    decreases all.len(),
{
    if all.len() > 0 {
        lemma_filled_count(all.drop_last(), without_nodes);
    }
}

/// No source gives more than its limit.
pub proof fn law_results_are_bounded(stdout: Seq<char>)
    ensures
        graphify_results_spec(stdout).len() <= GRAPHIFY_MAX_RESULTS,
        pgvector_results_spec(stdout).len() <= PGVECTOR_MAX_RESULTS,
        filled(at_most(lines_spec(stdout), VAULT_MAX_RESULTS as int), false).len()
            <= VAULT_MAX_RESULTS,
{
    lemma_filled_count(at_most(lines_spec(stdout), GRAPHIFY_MAX_RESULTS as int), true);
    lemma_filled_count(at_most(lines_spec(stdout), PGVECTOR_MAX_RESULTS as int), false);
    lemma_filled_count(at_most(lines_spec(stdout), VAULT_MAX_RESULTS as int), false);
}

/// A source that is switched off adds nothing, whatever it would have
/// answered.
pub proof fn law_disabled_sources_are_silent(
    enabled: EnabledSources,
    graphify: Seq<EnrichmentView>,
    vault: Seq<EnrichmentView>,
    pgvector: Seq<EnrichmentView>,
)
    ensures
        !enabled.graphify ==> context_entries(enabled, graphify, vault, pgvector)
            == context_entries(enabled, Seq::empty(), vault, pgvector),
        !enabled.vault ==> context_entries(enabled, graphify, vault, pgvector)
            == context_entries(enabled, graphify, Seq::empty(), pgvector),
        !enabled.pgvector ==> context_entries(enabled, graphify, vault, pgvector)
            == context_entries(enabled, graphify, vault, Seq::empty()),
        !enabled.graphify && !enabled.vault && !enabled.pgvector ==> context_entries(
            enabled,
            graphify,
            vault,
            pgvector,
        ).len() == 0,
{
}

/// Every entry from outside has the one category of such entries, and carries
/// its source and the mark of its origin as its last tags.
pub proof fn law_entries_are_marked(
    e: EnrichmentView,
    source_label: Seq<char>,
    category_label: Seq<char>,
)
    ensures
        ({
            let entry = entry_of(e, source_label, category_label);
            let n = entry.tags.len() as int;
            &&& entry.category == MemoryCategory::External
            &&& entry.tags[n - 1] == "external_enrichment"@
            &&& entry.tags[n - 2] == source_label
        }),
{
}

/// Everything that the context is enriched with has the one category of
/// entries from outside, whichever source it comes from.
pub proof fn law_context_is_marked_as_external(
    enabled: EnabledSources,
    graphify: Seq<EnrichmentView>,
    vault: Seq<EnrichmentView>,
    pgvector: Seq<EnrichmentView>,
)
    ensures
        forall|i: int|
            0 <= i < context_entries(enabled, graphify, vault, pgvector).len() ==> (
            #[trigger] context_entries(enabled, graphify, vault, pgvector)[i]).category
                == MemoryCategory::External,
{
}

} // verus!
