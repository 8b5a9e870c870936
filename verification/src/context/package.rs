//! The context package: what it holds, how it is written, and how it is made.

use vstd::prelude::*;

use crate::context::node::{
    node_views, nodes_of, parse_nodes, rank_nodes, ranked, text_of, text_or_empty, NodeView,
    ParsedNode,
};
use crate::digest::{stable_hash, stable_hash_spec};
use crate::json::{json_string, json_string_spec};
use crate::number::{decimal, decimal_spec};
use crate::text::{
    byte_len, byte_len_spec, contains, copy_opt, ends_with, fields, fields_spec, has_infix,
    has_suffix, has_text, join, join_spec, lower, opt_view, to_lower, trim, trim_spec, views,
    CharClass,
};

verus! {

/// The version of the package's form.
pub const IR_VERSION: &'static str = "1";

/// How much of a node the package holds.
#[derive(Debug, Clone, Copy, PartialEq, Eq, Structural)]
pub enum ContextRepresentationLevel {
    /// Its place in the graph.
    L0,
    /// Also where it is defined.
    L1,
}

/// One node of the package.
#[derive(Debug)]
pub struct CompiledContextItem {
    pub id: String,
    pub kind: String,
    pub level: ContextRepresentationLevel,
    pub reason: String,
    pub revision: String,
    pub name: String,
    pub source: Option<String>,
    pub location: Option<String>,
    pub community: Option<String>,
}

#[verifier::ext_equal]
pub struct ItemView {
    pub id: Seq<char>,
    pub kind: Seq<char>,
    pub level: ContextRepresentationLevel,
    pub reason: Seq<char>,
    pub revision: Seq<char>,
    pub name: Seq<char>,
    pub source: Option<Seq<char>>,
    pub location: Option<Seq<char>>,
    pub community: Option<Seq<char>>,
}

impl View for CompiledContextItem {
    type V = ItemView;

    open spec fn view(&self) -> ItemView {
        ItemView {
            id: self.id@,
            kind: self.kind@,
            level: self.level,
            reason: self.reason@,
            revision: self.revision@,
            name: self.name@,
            source: opt_view(self.source),
            location: opt_view(self.location),
            community: opt_view(self.community),
        }
    }
}

pub open spec fn item_views(v: Seq<CompiledContextItem>) -> Seq<ItemView> {
    v.map_values(|i: CompiledContextItem| i@)
}

/// A bounded package of graph nodes for a task.
#[derive(Debug)]
pub struct CompiledContext {
    pub version: &'static str,
    pub mode: &'static str,
    pub task: String,
    pub root_nodes: Vec<String>,
    pub items: Vec<CompiledContextItem>,
    pub estimated_tokens: usize,
    pub budget_tokens: usize,
    pub candidate_items: usize,
    pub deduplicated_items: usize,
    pub dropped_items: usize,
}

#[verifier::ext_equal]
pub struct PackageView {
    pub version: Seq<char>,
    pub mode: Seq<char>,
    pub task: Seq<char>,
    pub root_nodes: Seq<Seq<char>>,
    pub items: Seq<ItemView>,
    pub estimated_tokens: nat,
    pub budget_tokens: nat,
    pub candidate_items: nat,
    pub deduplicated_items: nat,
    pub dropped_items: nat,
}

impl View for CompiledContext {
    type V = PackageView;

    open spec fn view(&self) -> PackageView {
        PackageView {
            version: self.version@,
            mode: self.mode@,
            task: self.task@,
            root_nodes: views(self.root_nodes@),
            items: item_views(self.items@),
            estimated_tokens: self.estimated_tokens as nat,
            budget_tokens: self.budget_tokens as nat,
            candidate_items: self.candidate_items as nat,
            deduplicated_items: self.deduplicated_items as nat,
            dropped_items: self.dropped_items as nat,
        }
    }
}

// ---------------------------------------------------------------------------
// Writing
// ---------------------------------------------------------------------------

pub open spec fn level_text(level: ContextRepresentationLevel) -> Seq<char> {
    match level {
        ContextRepresentationLevel::L0 => "\"L0\""@,
        ContextRepresentationLevel::L1 => "\"L1\""@,
    }
}

/// A member of an object that is left out where there is no value.
pub open spec fn optional_member(key: Seq<char>, value: Option<Seq<char>>) -> Seq<char> {
    match value {
        Some(value) => key + json_string_spec(value),
        None => Seq::empty(),
    }
}

/// An item as JSON.
pub open spec fn item_json(item: ItemView) -> Seq<char> {
    "{\"id\":"@ + json_string_spec(item.id) + ",\"kind\":"@ + json_string_spec(item.kind)
        + ",\"level\":"@ + level_text(item.level) + ",\"reason\":"@ + json_string_spec(item.reason)
        + ",\"revision\":"@ + json_string_spec(item.revision) + ",\"name\":"@ + json_string_spec(
        item.name,
    ) + optional_member(",\"source\":"@, item.source) + optional_member(
        ",\"location\":"@,
        item.location,
    ) + optional_member(",\"community\":"@, item.community) + "}"@
}

/// Elements as a JSON array.
pub open spec fn array_json(elements: Seq<Seq<char>>) -> Seq<char> {
    "["@ + join_spec(elements, ","@) + "]"@
}

/// A package as JSON.
pub open spec fn package_json(p: PackageView) -> Seq<char> {
    "{\"version\":"@ + json_string_spec(p.version) + ",\"mode\":"@ + json_string_spec(p.mode)
        + ",\"task\":"@ + json_string_spec(p.task) + ",\"root_nodes\":"@ + array_json(
        p.root_nodes.map_values(|t: Seq<char>| json_string_spec(t)),
    ) + ",\"items\":"@ + array_json(p.items.map_values(|i: ItemView| item_json(i)))
        + ",\"estimated_tokens\":"@ + decimal_spec(p.estimated_tokens) + ",\"budget_tokens\":"@
        + decimal_spec(p.budget_tokens) + ",\"candidate_items\":"@ + decimal_spec(
        p.candidate_items,
    ) + ",\"deduplicated_items\":"@ + decimal_spec(p.deduplicated_items) + ",\"dropped_items\":"@
        + decimal_spec(p.dropped_items) + "}"@
}

fn append_member(out: &mut String, key: &str, value: &Option<String>)
    ensures
        final(out)@ == old(out)@ + optional_member(key@, opt_view(*value)),
{
    match value {
        Some(value) => {
            out.append(key);
            out.append(json_string(value.as_str()).as_str());
            assert(out@ =~= old(out)@ + (key@ + json_string_spec(value@)));
        },
        None => {
            assert(out@ =~= old(out)@ + Seq::<char>::empty());
        },
    }
}

impl CompiledContextItem {
    pub fn to_json(&self) -> (res: String)
        ensures
            res@ == item_json(self@),
    {
        let level = match self.level {
            ContextRepresentationLevel::L0 => "\"L0\"",
            ContextRepresentationLevel::L1 => "\"L1\"",
        };
        let mut out = "{\"id\":".to_string().concat(json_string(self.id.as_str()).as_str()).concat(
            ",\"kind\":",
        ).concat(json_string(self.kind.as_str()).as_str()).concat(",\"level\":").concat(
            level,
        ).concat(",\"reason\":").concat(json_string(self.reason.as_str()).as_str()).concat(
            ",\"revision\":",
        ).concat(json_string(self.revision.as_str()).as_str()).concat(",\"name\":").concat(
            json_string(self.name.as_str()).as_str(),
        );
        append_member(&mut out, ",\"source\":", &self.source);
        append_member(&mut out, ",\"location\":", &self.location);
        append_member(&mut out, ",\"community\":", &self.community);
        out.concat("}")
    }
}

fn array_of(elements: &Vec<String>) -> (res: String)
    ensures
        res@ == array_json(views(elements@)),
{
    "[".to_string().concat(join(elements, ",").as_str()).concat("]")
}

fn strings_json(list: &Vec<String>) -> (res: String)
    ensures
        res@ == array_json(views(list@).map_values(|t: Seq<char>| json_string_spec(t))),
{
    let ghost all = views(list@).map_values(|t: Seq<char>| json_string_spec(t));
    let mut parts: Vec<String> = Vec::new();
    let mut i: usize = 0;
    while i < list.len()
        invariant
            i <= list@.len(),
            all == views(list@).map_values(|t: Seq<char>| json_string_spec(t)),
            views(parts@) =~= all.take(i as int),
        decreases list@.len() - i,
    {
        let ghost done = views(parts@);
        let one = json_string(list[i].as_str());
        let ghost text = one@;
        assert(all[i as int] == text);
        parts.push(one);
        assert(views(parts@) =~= done.push(text));
        i += 1;
    }
    assert(all.take(i as int) =~= all);
    array_of(&parts)
}

fn items_json(list: &Vec<CompiledContextItem>) -> (res: String)
    ensures
        res@ == array_json(item_views(list@).map_values(|i: ItemView| item_json(i))),
{
    let ghost all = item_views(list@).map_values(|i: ItemView| item_json(i));
    let mut parts: Vec<String> = Vec::new();
    let mut i: usize = 0;
    while i < list.len()
        invariant
            i <= list@.len(),
            all == item_views(list@).map_values(|i: ItemView| item_json(i)),
            views(parts@) =~= all.take(i as int),
        decreases list@.len() - i,
    {
        let ghost done = views(parts@);
        let one = list[i].to_json();
        let ghost text = one@;
        assert(all[i as int] == text);
        parts.push(one);
        assert(views(parts@) =~= done.push(text));
        i += 1;
    }
    assert(all.take(i as int) =~= all);
    array_of(&parts)
}

impl CompiledContext {
    pub fn to_prompt_json(&self) -> (res: String)
        ensures
            res@ == package_json(self@),
    {
        "{\"version\":".to_string().concat(json_string(self.version).as_str()).concat(
            ",\"mode\":",
        ).concat(json_string(self.mode).as_str()).concat(",\"task\":").concat(
            json_string(self.task.as_str()).as_str(),
        ).concat(",\"root_nodes\":").concat(strings_json(&self.root_nodes).as_str()).concat(
            ",\"items\":",
        ).concat(items_json(&self.items).as_str()).concat(",\"estimated_tokens\":").concat(
            decimal(self.estimated_tokens as u64).as_str(),
        ).concat(",\"budget_tokens\":").concat(decimal(self.budget_tokens as u64).as_str()).concat(
            ",\"candidate_items\":",
        ).concat(decimal(self.candidate_items as u64).as_str()).concat(
            ",\"deduplicated_items\":",
        ).concat(decimal(self.deduplicated_items as u64).as_str()).concat(
            ",\"dropped_items\":",
        ).concat(decimal(self.dropped_items as u64).as_str()).concat("}")
    }
}

// ---------------------------------------------------------------------------
// Estimating
// ---------------------------------------------------------------------------

/// About how many tokens a text has: one for every four bytes, rounded up.
pub open spec fn tokens_of(text: Seq<char>) -> nat {
    (byte_len_spec(text) + 3) / 4
}

pub fn estimate_tokens(text: &str) -> (res: usize)
    ensures
        res == tokens_of(text@),
{
    let bytes = byte_len(text);
    if bytes % 4 == 0 {
        bytes / 4
    } else {
        bytes / 4 + 1
    }
}

/// The sum of two counts, held at the largest that can be counted.
pub open spec fn held_sum(a: nat, b: nat) -> nat {
    if a + b <= usize::MAX {
        a + b
    } else {
        usize::MAX as nat
    }
}

/// About how many tokens a package has before any item is in it.
pub open spec fn package_base(task: Seq<char>) -> nat {
    held_sum(tokens_of(task), 48)
}

pub fn fixed_package_token_estimate(task: &str) -> (res: usize)
    ensures
        res == package_base(task@),
{
    estimate_tokens(task).saturating_add(48)
}

// ---------------------------------------------------------------------------
// Items
// ---------------------------------------------------------------------------

/// What tells one node from another: its name, source and location.
pub open spec fn identity_of(
    name: Seq<char>,
    source: Option<Seq<char>>,
    location: Option<Seq<char>>,
) -> Seq<char> {
    name + "\u{1f}"@ + text_or_empty(source) + "\u{1f}"@ + text_or_empty(location)
}

pub open spec fn identity(node: NodeView) -> Seq<char> {
    identity_of(node.name, node.source, node.location)
}

/// Whether a word of the task stands in the name.
pub open spec fn task_names(task: Seq<char>, name: Seq<char>) -> bool {
    exists|i: int|
        0 <= i < fields_spec(lower(task), CharClass::NonWord).len() && byte_len_spec(
            #[trigger] fields_spec(lower(task), CharClass::NonWord)[i],
        ) >= 3 && has_infix(lower(name), fields_spec(lower(task), CharClass::NonWord)[i])
}

/// Whether a file holds program text.
pub open spec fn is_program(source: Seq<char>) -> bool {
    has_suffix(source, ".rs"@) || has_suffix(source, ".py"@) || has_suffix(source, ".ts"@)
        || has_suffix(source, ".js"@)
}

/// A node as an item of the package.
pub open spec fn item_of(task: Seq<char>, node: NodeView) -> ItemView {
    ItemView {
        id: "G"@ + stable_hash_spec(identity(node)),
        kind: if node.source is Some && is_program(node.source->0) {
            "symbol"@
        } else {
            "node"@
        },
        level: if node.source is Some || node.location is Some {
            ContextRepresentationLevel::L1
        } else {
            ContextRepresentationLevel::L0
        },
        reason: if task_names(task, node.name) {
            "task-root"@
        } else {
            "graph-neighbor"@
        },
        revision: stable_hash_spec(node.raw),
        name: node.name,
        source: node.source,
        location: node.location,
        community: node.community,
    }
}

fn names_task_word(task: &str, name: &str) -> (res: bool)
    ensures
        res == task_names(task@, name@),
{
    let words = fields(to_lower(task).as_str(), CharClass::NonWord);
    let lowered = to_lower(name);
    let ghost all = fields_spec(lower(task@), CharClass::NonWord);
    let mut i: usize = 0;
    while i < words.len()
        invariant
            i <= words@.len(),
            all == fields_spec(lower(task@), CharClass::NonWord),
            views(words@) == all,
            lowered@ == lower(name@),
            forall|k: int|
                0 <= k < i ==> !(byte_len_spec(#[trigger] all[k]) >= 3 && has_infix(
                    lower(name@),
                    all[k],
                )),
        decreases words@.len() - i,
    {
        assert(all[i as int] == words@[i as int]@);
        if byte_len(words[i].as_str()) >= 3 && contains(lowered.as_str(), words[i].as_str()) {
            return true;
        }
        i += 1;
    }
    false
}

fn node_identity(node: &ParsedNode) -> (res: String)
    ensures
        res@ == identity(node@),
{
    node.name.clone().concat("\u{1f}").concat(text_of(&node.source).as_str()).concat(
        "\u{1f}",
    ).concat(text_of(&node.location).as_str())
}

pub fn compiled_item(task: &str, node: &ParsedNode) -> (res: CompiledContextItem)
    ensures
        res@ == item_of(task@, node@),
{
    let in_program = match &node.source {
        Some(source) => ends_with(source.as_str(), ".rs") || ends_with(source.as_str(), ".py")
            || ends_with(source.as_str(), ".ts") || ends_with(source.as_str(), ".js"),
        None => false,
    };
    CompiledContextItem {
        id: "G".to_string().concat(stable_hash(node_identity(node).as_str()).as_str()),
        kind: if in_program {
            "symbol".to_string()
        } else {
            "node".to_string()
        },
        level: if node.source.is_some() || node.location.is_some() {
            ContextRepresentationLevel::L1
        } else {
            ContextRepresentationLevel::L0
        },
        reason: if names_task_word(task, node.name.as_str()) {
            "task-root".to_string()
        } else {
            "graph-neighbor".to_string()
        },
        revision: stable_hash(node.raw.as_str()),
        name: node.name.clone(),
        source: copy_opt(&node.source),
        location: copy_opt(&node.location),
        community: copy_opt(&node.community),
    }
}

// ---------------------------------------------------------------------------
// Selecting
// ---------------------------------------------------------------------------

/// What has been chosen so far: the nodes already met, how many of them came
/// again, the items, and about how many tokens they have.
pub ghost struct Selection {
    pub seen: Seq<Seq<char>>,
    pub deduplicated: nat,
    pub items: Seq<ItemView>,
    pub tokens: nat,
}

/// One more node: a repeated one is counted and left out, and an item is taken
/// while the limits allow it. The first item is always taken.
pub open spec fn chosen(
    task: Seq<char>,
    budget: nat,
    limit: nat,
    sel: Selection,
    node: NodeView,
) -> Selection {
    if sel.seen.contains(identity(node)) {
        Selection { deduplicated: sel.deduplicated + 1, ..sel }
    } else {
        let seen = sel.seen.push(identity(node));
        let item = item_of(task, node);
        let tokens = held_sum(sel.tokens, tokens_of(item_json(item)));
        if sel.items.len() >= limit || (sel.items.len() > 0 && tokens > budget) {
            Selection { seen, ..sel }
        } else {
            Selection { seen, items: sel.items.push(item), tokens, ..sel }
        }
    }
}

/// What is chosen of these nodes.
pub open spec fn selection(
    task: Seq<char>,
    budget: nat,
    limit: nat,
    nodes: Seq<NodeView>,
) -> Selection
    decreases nodes.len(),
{
    if nodes.len() == 0 {
        Selection {
            seen: Seq::empty(),
            deduplicated: 0,
            items: Seq::empty(),
            tokens: package_base(task),
        }
    } else {
        chosen(task, budget, limit, selection(task, budget, limit, nodes.drop_last()), nodes.last())
    }
}

/// The identifiers of the first three items.
pub open spec fn roots(items: Seq<ItemView>) -> Seq<Seq<char>> {
    let count = if items.len() > 3 {
        3
    } else {
        items.len() as int
    };
    items.take(count).map_values(|i: ItemView| i.id)
}

/// `a` without `b`, and nothing where there is less.
pub open spec fn left_over(a: nat, b: nat) -> nat {
    if a >= b {
        (a - b) as nat
    } else {
        0
    }
}

/// The package with its roots, its count of dropped items and its estimate
/// brought up to date. The estimate is that of the package as it stood before.
#[verifier::opaque]
pub open spec fn refreshed(p: PackageView) -> PackageView {
    let counted = PackageView {
        root_nodes: roots(p.items),
        dropped_items: left_over(left_over(p.candidate_items, p.deduplicated_items), p.items.len()),
        ..p
    };
    PackageView { estimated_tokens: tokens_of(package_json(counted)), ..counted }
}

/// Whether a package keeps its budget, by its estimate and as it is written.
#[verifier::opaque]
pub open spec fn keeps_budget(p: PackageView) -> bool {
    p.estimated_tokens <= p.budget_tokens && tokens_of(package_json(p)) <= p.budget_tokens
}

/// The package without its last items, as many as it takes to keep the budget.
/// One item stays.
pub open spec fn settled(p: PackageView) -> PackageView
    decreases p.items.len(),
{
    let q = refreshed(p);
    if keeps_budget(q) || p.items.len() <= 1 {
        q
    } else {
        settled(PackageView { items: p.items.drop_last(), ..q })
    }
}

/// The number of items that a package may have.
pub open spec fn item_limit(max_items: nat) -> nat {
    if max_items >= 1 {
        max_items
    } else {
        1
    }
}

/// The package for a task, before its size is settled.
pub open spec fn unsettled(
    task: Seq<char>,
    output: Seq<char>,
    budget: nat,
    max_items: nat,
) -> PackageView {
    let nodes = nodes_of(output);
    let sel = selection(task, budget, item_limit(max_items), ranked(task, nodes));
    PackageView {
        version: IR_VERSION@,
        mode: "graph_compact"@,
        task: trim_spec(task),
        root_nodes: roots(sel.items),
        items: sel.items,
        estimated_tokens: sel.tokens,
        budget_tokens: budget,
        candidate_items: nodes.len(),
        deduplicated_items: sel.deduplicated,
        dropped_items: 0,
    }
}

/// The package for a task.
pub open spec fn package(
    task: Seq<char>,
    output: Seq<char>,
    budget: nat,
    max_items: nat,
) -> PackageView {
    settled(unsettled(task, output, budget, max_items))
}

fn root_ids(items: &Vec<CompiledContextItem>) -> (res: Vec<String>)
    ensures
        views(res@) == roots(item_views(items@)),
{
    let ghost all = roots(item_views(items@));
    let count: usize = if items.len() > 3 {
        3
    } else {
        items.len()
    };
    let mut res: Vec<String> = Vec::new();
    let mut i: usize = 0;
    while i < count
        invariant
            i <= count <= items@.len(),
            all == roots(item_views(items@)),
            all.len() == count,
            views(res@) =~= all.take(i as int),
        decreases count - i,
    {
        let ghost done = views(res@);
        assert(all[i as int] == items@[i as int]@.id);
        res.push(items[i].id.clone());
        assert(views(res@) =~= done.push(items@[i as int]@.id));
        i += 1;
    }
    assert(all.take(i as int) =~= all);
    res
}

/// The items that are chosen, how many nodes came again, and the estimate.
fn select_items(task: &str, nodes: &Vec<ParsedNode>, budget: usize, limit: usize) -> (res: (
    Vec<CompiledContextItem>,
    usize,
    usize,
))
    ensures
        ({
            let sel = selection(task@, budget as nat, limit as nat, node_views(nodes@));
            &&& item_views(res.0@) == sel.items
            &&& res.1 == sel.deduplicated
            &&& res.2 == sel.tokens
        }),
{
    let ghost all = node_views(nodes@);
    let mut seen: Vec<String> = Vec::new();
    let mut deduplicated: usize = 0;
    let mut items: Vec<CompiledContextItem> = Vec::new();
    let mut tokens: usize = fixed_package_token_estimate(task);
    let mut i: usize = 0;
    assert(all.take(0) =~= Seq::<NodeView>::empty());
    assert(views(seen@) =~= Seq::<Seq<char>>::empty());
    assert(item_views(items@) =~= Seq::<ItemView>::empty());
    while i < nodes.len()
        invariant
            i <= nodes@.len(),
            all == node_views(nodes@),
            deduplicated <= i,
            selection(task@, budget as nat, limit as nat, all.take(i as int)) == (Selection {
                seen: views(seen@),
                deduplicated: deduplicated as nat,
                items: item_views(items@),
                tokens: tokens as nat,
            }),
        decreases nodes@.len() - i,
    {
        let ghost met = views(seen@);
        let ghost taken = item_views(items@);
        assert(all.take(i + 1).drop_last() =~= all.take(i as int));
        assert(all.take(i + 1).last() == nodes@[i as int]@);
        let who = node_identity(&nodes[i]);
        if has_text(&seen, who.as_str()) {
            deduplicated += 1;
        } else {
            let ghost name = who@;
            seen.push(who);
            assert(views(seen@) =~= met.push(name));
            let item = compiled_item(task, &nodes[i]);
            let ghost one = item@;
            let more = tokens.saturating_add(estimate_tokens(item.to_json().as_str()));
            if !(items.len() >= limit || (items.len() > 0 && more > budget)) {
                tokens = more;
                items.push(item);
                assert(item_views(items@) =~= taken.push(one));
            }
        }
        i += 1;
    }
    assert(all.take(i as int) =~= all);
    (items, deduplicated, tokens)
}

/// Brings the roots, the count of dropped items and the estimate up to date.
fn refresh(compiled: &mut CompiledContext)
    ensures
        final(compiled)@ == refreshed(old(compiled)@),
        final(compiled).items@ == old(compiled).items@,
        final(compiled).budget_tokens == old(compiled).budget_tokens,
{
    reveal(refreshed);
    let ghost before = compiled@;
    compiled.root_nodes = root_ids(&compiled.items);
    compiled.dropped_items =
    compiled.candidate_items.saturating_sub(compiled.deduplicated_items).saturating_sub(
        compiled.items.len(),
    );
    let ghost counted = PackageView {
        root_nodes: roots(before.items),
        dropped_items: left_over(
            left_over(before.candidate_items, before.deduplicated_items),
            before.items.len(),
        ),
        ..before
    };
    assert(compiled@ =~= counted);
    compiled.estimated_tokens = estimate_tokens(compiled.to_prompt_json().as_str());
    assert(compiled@ =~= refreshed(before));
}

/// Whether the package keeps its budget, by its estimate and as it is written.
fn fits_budget(compiled: &CompiledContext) -> (res: bool)
    ensures
        res == keeps_budget(compiled@),
{
    reveal(keeps_budget);
    compiled.estimated_tokens <= compiled.budget_tokens && estimate_tokens(
        compiled.to_prompt_json().as_str(),
    ) <= compiled.budget_tokens
}

/// Compiles the code graph's answer into a bounded package for the task.
pub fn compile_graphify_context(
    task: &str,
    graphify_output: &str,
    budget_tokens: usize,
    max_items: usize,
) -> (res: CompiledContext)
    ensures
        res@ == package(task@, graphify_output@, budget_tokens as nat, max_items as nat),
{
    let parsed = parse_nodes(graphify_output);
    let candidate_items = parsed.len();
    let nodes = rank_nodes(task, &parsed);
    let limit = if max_items >= 1 {
        max_items
    } else {
        1
    };
    let (items, deduplicated_items, estimated_tokens) = select_items(
        task,
        &nodes,
        budget_tokens,
        limit,
    );
    let mut compiled = CompiledContext {
        version: IR_VERSION,
        mode: "graph_compact",
        task: trim(task),
        root_nodes: root_ids(&items),
        items,
        estimated_tokens,
        budget_tokens,
        candidate_items,
        deduplicated_items,
        dropped_items: 0,
    };
    let ghost start = compiled@;
    assert(start =~= unsettled(
        task@,
        graphify_output@,
        budget_tokens as nat,
        max_items as nat,
    ));
    loop
        invariant_except_break
            settled(start) == settled(compiled@),
        ensures
            compiled@ == settled(start),
        decreases compiled.items@.len(),
    {
        let ghost before = compiled@;
        refresh(&mut compiled);
        if fits_budget(&compiled) || compiled.items.len() <= 1 {
            break;
        }
        let ghost full = compiled@;
        let _ = compiled.items.pop();
        assert(item_views(compiled.items@) =~= full.items.drop_last());
    }
    compiled
}

} // verus!
