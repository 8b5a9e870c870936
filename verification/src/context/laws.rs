//! What holds of every context package.

use vstd::prelude::*;

use crate::context::node::{lemma_slot, nodes_of, nodes_of_lines, ranked, score, slot, NodeView};
use crate::context::output::stored_output;
use crate::context::package::{
    array_json, chosen, identity, identity_of, item_json, item_limit, item_of, keeps_budget,
    package, package_json, refreshed, roots, selection, settled, tokens_of, unsettled, ItemView,
    PackageView,
};
use crate::context::query::{
    bounded, concepts, groups, query_tokens, query_variants, stems, MAX_QUERY_CHARS,
};
use crate::json::json_string_spec;
use crate::number::{decimal_spec, lemma_decimal_size};
use crate::text::{byte_len_spec, lemma_byte_len_add, lemma_distinct, lines_spec, trim_spec};

verus! {

// ---------------------------------------------------------------------------
// Rank
// ---------------------------------------------------------------------------

/// Whether no node stands behind one that scores less, and nodes of one score
/// stand in the order of their lines.
pub open spec fn in_rank_order(task: Seq<char>, nodes: Seq<NodeView>) -> bool {
    forall|i: int, j: int|
        #![trigger nodes[i], nodes[j]]
        0 <= i < j < nodes.len() ==> score(task, nodes[i]) > score(task, nodes[j]) || (score(
            task,
            nodes[i],
        ) == score(task, nodes[j]) && nodes[i].ordinal < nodes[j].ordinal)
}

/// Whether each node comes from a later line than the one before it.
pub open spec fn in_line_order(nodes: Seq<NodeView>) -> bool {
    forall|i: int, j: int|
        #![trigger nodes[i], nodes[j]]
        0 <= i < j < nodes.len() ==> nodes[i].ordinal < nodes[j].ordinal
}

pub(crate) proof fn lemma_line_order(all: Seq<Seq<char>>)
    ensures
        in_line_order(nodes_of_lines(all)),
        forall|i: int|
            0 <= i < nodes_of_lines(all).len() ==> (#[trigger] nodes_of_lines(all)[i]).ordinal
                < all.len(),
    decreases all.len(),
{
    if all.len() > 0 {
        lemma_line_order(all.drop_last());
        let before = nodes_of_lines(all.drop_last());
        let after = nodes_of_lines(all);
        assert forall|i: int| 0 <= i < after.len() implies (#[trigger] after[i]).ordinal
            < all.len() by {
            if i < before.len() {
                assert(after[i] == before[i]);
            }
        }
        assert forall|i: int, j: int|
            #![trigger after[i], after[j]]
            0 <= i < j < after.len() implies after[i].ordinal < after[j].ordinal by {
            assert(after[i] == before[i]);
            if j < before.len() {
                assert(after[j] == before[j]);
            }
        }
    }
}

/// A node from a later line goes behind every node that scores as much or more.
proof fn lemma_insert_in_rank(task: Seq<char>, before: Seq<NodeView>, node: NodeView)
    requires
        in_rank_order(task, before),
        forall|k: int| 0 <= k < before.len() ==> (#[trigger] before[k]).ordinal < node.ordinal,
    ensures
        in_rank_order(task, before.insert(slot(task, before, score(task, node)), node)),
{
    let points = score(task, node);
    let at = slot(task, before, points);
    lemma_slot(task, before, points);
    let after = before.insert(at, node);
    assert forall|i: int, j: int|
        #![trigger after[i], after[j]]
        0 <= i < j < after.len() implies score(task, after[i]) > score(task, after[j]) || (score(
        task,
        after[i],
    ) == score(task, after[j]) && after[i].ordinal < after[j].ordinal) by {
        let a = if i < at { i } else { i - 1 };
        let b = if j < at { j } else { j - 1 };
        if i != at {
            assert(after[i] == before[a]);
        }
        if j != at {
            assert(after[j] == before[b]);
        }
        if j == at {
            // Everything in front scores as much as its last one, or more.
            assert(score(task, before[at - 1]) >= points);
            if i < at - 1 {
                assert(score(task, before[i]) >= score(task, before[at - 1]));
            }
        }
    }
}

pub(crate) proof fn lemma_ranked_contents(task: Seq<char>, nodes: Seq<NodeView>)
    ensures
        ranked(task, nodes).to_multiset() == nodes.to_multiset(),
        ranked(task, nodes).len() == nodes.len(),
    decreases nodes.len(),
{
    if nodes.len() > 0 {
        let rest = nodes.drop_last();
        let node = nodes.last();
        lemma_ranked_contents(task, rest);
        let before = ranked(task, rest);
        let at = slot(task, before, score(task, node));
        lemma_slot(task, before, score(task, node));
        vstd::seq_lib::to_multiset_insert(before, at, node);
        vstd::seq_lib::to_multiset_build(rest, node);
        assert(nodes =~= rest.push(node));
    }
}

pub(crate) proof fn lemma_ranked_member(task: Seq<char>, nodes: Seq<NodeView>, k: int)
    requires
        0 <= k < ranked(task, nodes).len(),
    ensures
        nodes.contains(ranked(task, nodes)[k]),
{
    let list = ranked(task, nodes);
    lemma_ranked_contents(task, nodes);
    vstd::seq_lib::to_multiset_contains(list, list[k]);
    vstd::seq_lib::to_multiset_contains(nodes, list[k]);
    assert(list.contains(list[k]));
}

proof fn lemma_ranked(task: Seq<char>, nodes: Seq<NodeView>)
    requires
        in_line_order(nodes),
    ensures
        in_rank_order(task, ranked(task, nodes)),
    decreases nodes.len(),
{
    if nodes.len() > 0 {
        let rest = nodes.drop_last();
        let node = nodes.last();
        assert forall|i: int, j: int|
            #![trigger rest[i], rest[j]]
            0 <= i < j < rest.len() implies rest[i].ordinal < rest[j].ordinal by {
            assert(nodes[i] == rest[i] && nodes[j] == rest[j]);
        }
        lemma_ranked(task, rest);
        let before = ranked(task, rest);
        assert forall|k: int| 0 <= k < before.len() implies (#[trigger] before[k]).ordinal
            < node.ordinal by {
            lemma_ranked_member(task, rest, k);
            let i = choose|i: int| 0 <= i < rest.len() && rest[i] == before[k];
            assert(nodes[i] == rest[i]);
            assert(nodes[nodes.len() - 1] == node);
        }
        lemma_insert_in_rank(task, before, node);
    }
}

/// The ranked nodes are the nodes of the answer, the best first, and nodes that
/// score the same stay in the order of their lines.
pub proof fn law_ranking_orders_the_nodes(task: Seq<char>, output: Seq<char>)
    ensures
        in_rank_order(task, ranked(task, nodes_of(output))),
        ranked(task, nodes_of(output)).to_multiset() == nodes_of(output).to_multiset(),
        ranked(task, nodes_of(output)).len() == nodes_of(output).len(),
{
    lemma_line_order(lines_spec(output));
    lemma_ranked(task, nodes_of(output));
    lemma_ranked_contents(task, nodes_of(output));
}

// ---------------------------------------------------------------------------
// Selection
// ---------------------------------------------------------------------------

/// Whether no two items stand for one node.
pub open spec fn all_different(items: Seq<ItemView>) -> bool {
    forall|i: int, j: int|
        #![trigger items[i], items[j]]
        0 <= i < j < items.len() ==> identity_of_item(items[i]) != identity_of_item(items[j])
}

/// What tells the node of one item from that of another.
pub open spec fn identity_of_item(item: ItemView) -> Seq<char> {
    identity_of(item.name, item.source, item.location)
}

/// Whether the item was made of one of these nodes.
pub open spec fn comes_from(task: Seq<char>, nodes: Seq<NodeView>, item: ItemView) -> bool {
    exists|k: int| 0 <= k < nodes.len() && item == item_of(task, #[trigger] nodes[k])
}

pub(crate) proof fn lemma_selection(task: Seq<char>, budget: nat, limit: nat, nodes: Seq<NodeView>)
    requires
        limit >= 1,
    ensures
        ({
            let sel = selection(task, budget, limit, nodes);
            &&& sel.seen.len() + sel.deduplicated == nodes.len()
            &&& sel.items.len() <= sel.seen.len()
            &&& sel.items.len() <= limit
            &&& nodes.len() > 0 ==> sel.items.len() > 0 && sel.items[0] == item_of(task, nodes[0])
            &&& all_different(sel.items)
            &&& forall|i: int|
                0 <= i < sel.items.len() ==> sel.seen.contains(
                    identity_of_item(#[trigger] sel.items[i]),
                )
            &&& forall|i: int|
                0 <= i < sel.items.len() ==> comes_from(task, nodes, #[trigger] sel.items[i])
        }),
    decreases nodes.len(),
{
    if nodes.len() > 0 {
        let rest = nodes.drop_last();
        let node = nodes.last();
        lemma_selection(task, budget, limit, rest);
        let before = selection(task, budget, limit, rest);
        let after = selection(task, budget, limit, nodes);
        assert(after == chosen(task, budget, limit, before, node));
        if rest.len() > 0 {
            assert(rest[0] == nodes[0]);
        }
        assert forall|i: int| 0 <= i < after.items.len() implies after.seen.contains(
            identity_of_item(#[trigger] after.items[i]),
        ) by {
            if i < before.items.len() {
                assert(after.items[i] == before.items[i]);
                let who = identity_of_item(before.items[i]);
                let k = choose|k: int| 0 <= k < before.seen.len() && before.seen[k] == who;
                assert(before.seen.contains(who));
                assert(after.seen[k] == who);
            } else {
                assert(after.seen[before.seen.len() as int] == identity(node));
            }
        }
        assert forall|i: int| 0 <= i < after.items.len() implies comes_from(
            task,
            nodes,
            #[trigger] after.items[i],
        ) by {
            if i < before.items.len() {
                assert(after.items[i] == before.items[i]);
                let k = choose|k: int|
                    0 <= k < rest.len() && before.items[i] == item_of(task, #[trigger] rest[k]);
                assert(comes_from(task, rest, before.items[i]));
                assert(nodes[k] == rest[k]);
            } else {
                assert(nodes[nodes.len() - 1] == node);
            }
        }
        assert forall|i: int, j: int|
            #![trigger after.items[i], after.items[j]]
            0 <= i < j < after.items.len() implies identity_of_item(after.items[i])
            != identity_of_item(after.items[j]) by {
            assert(after.items[i] == before.items[i]);
            if j < before.items.len() {
                assert(after.items[j] == before.items[j]);
            } else {
                assert(before.seen.contains(identity_of_item(before.items[i])));
            }
        }
    }
}

/// The package as it stood when its size was measured for the last time.
pub open spec fn unmeasured(p: PackageView) -> PackageView
    decreases p.items.len(),
{
    let q = refreshed(p);
    if keeps_budget(q) || p.items.len() <= 1 {
        p
    } else {
        unmeasured(PackageView { items: p.items.drop_last(), ..q })
    }
}

pub(crate) proof fn lemma_refreshed(p: PackageView)
    ensures
        ({
            let q = refreshed(p);
            &&& q.items == p.items
            &&& q.root_nodes == roots(p.items)
            &&& q.version == p.version && q.mode == p.mode && q.task == p.task
            &&& q.budget_tokens == p.budget_tokens
            &&& q.candidate_items == p.candidate_items
            &&& q.deduplicated_items == p.deduplicated_items
            &&& p.deduplicated_items + p.items.len() <= p.candidate_items ==> q.candidate_items
                == q.deduplicated_items + q.dropped_items + p.items.len()
        }),
{
    reveal(refreshed);
}

pub(crate) proof fn lemma_settled(p: PackageView)
    ensures
        ({
            let q = settled(p);
            let n = q.items.len();
            &&& n <= p.items.len()
            &&& q.items == p.items.take(n as int)
            &&& p.items.len() > 0 ==> n > 0
            &&& keeps_budget(q) || n <= 1
            &&& q.root_nodes == roots(q.items)
            &&& q.version == p.version && q.mode == p.mode && q.task == p.task
            &&& q.budget_tokens == p.budget_tokens
            &&& q.candidate_items == p.candidate_items
            &&& q.deduplicated_items == p.deduplicated_items
            &&& p.deduplicated_items + p.items.len() <= p.candidate_items ==> q.candidate_items
                == q.deduplicated_items + q.dropped_items + n
            &&& q == refreshed(unmeasured(p))
        }),
    decreases p.items.len(),
{
    lemma_refreshed(p);
    let q = refreshed(p);
    if keeps_budget(q) || p.items.len() <= 1 {
        assert(p.items.take(p.items.len() as int) =~= p.items);
    } else {
        let less = PackageView { items: p.items.drop_last(), ..q };
        lemma_settled(less);
        let n = settled(less).items.len() as int;
        assert(less.items.take(n) =~= p.items.take(n));
    }
}

/// A package has at most as many items as asked for, and at least one where the
/// answer has a node: the best-ranked node is never left out.
pub proof fn law_packages_hold_the_best_node(
    task: Seq<char>,
    output: Seq<char>,
    budget: nat,
    max_items: nat,
)
    ensures
        ({
            let p = package(task, output, budget, max_items);
            &&& p.items.len() <= item_limit(max_items)
            &&& nodes_of(output).len() > 0 ==> p.items.len() > 0 && p.items[0] == item_of(
                task,
                ranked(task, nodes_of(output))[0],
            )
            &&& nodes_of(output).len() == 0 ==> p.items.len() == 0
        }),
{
    let nodes = ranked(task, nodes_of(output));
    law_ranking_orders_the_nodes(task, output);
    lemma_selection(task, budget, item_limit(max_items), nodes);
    lemma_settled(unsettled(task, output, budget, max_items));
}

/// What goes into the prompt stays within the budget: a package of more than
/// one item is written in at most as many tokens as allowed, and is estimated
/// at no more.
pub proof fn law_prompts_stay_within_the_budget(
    task: Seq<char>,
    output: Seq<char>,
    budget: nat,
    max_items: nat,
)
    ensures
        ({
            let p = package(task, output, budget, max_items);
            &&& p.budget_tokens == budget
            &&& tokens_of(package_json(p)) <= budget || p.items.len() <= 1
            &&& p.estimated_tokens <= budget || p.items.len() <= 1
        }),
{
    lemma_settled(unsettled(task, output, budget, max_items));
    reveal(keeps_budget);
}

/// Every node of the answer is accounted for: it is an item, it came again, or
/// it was dropped.
pub proof fn law_every_candidate_is_accounted_for(
    task: Seq<char>,
    output: Seq<char>,
    budget: nat,
    max_items: nat,
)
    ensures
        ({
            let p = package(task, output, budget, max_items);
            &&& p.candidate_items == nodes_of(output).len()
            &&& p.candidate_items == p.deduplicated_items + p.dropped_items + p.items.len()
        }),
{
    let nodes = ranked(task, nodes_of(output));
    law_ranking_orders_the_nodes(task, output);
    lemma_selection(task, budget, item_limit(max_items), nodes);
    lemma_settled(unsettled(task, output, budget, max_items));
}

/// No two items stand for one node, each was made of a node of the answer, and
/// the roots are the first three of them.
pub proof fn law_items_are_distinct_nodes(
    task: Seq<char>,
    output: Seq<char>,
    budget: nat,
    max_items: nat,
)
    ensures
        ({
            let p = package(task, output, budget, max_items);
            &&& all_different(p.items)
            &&& forall|i: int|
                0 <= i < p.items.len() ==> comes_from(
                    task,
                    ranked(task, nodes_of(output)),
                    #[trigger] p.items[i],
                )
            &&& p.root_nodes == roots(p.items)
        }),
{
    let nodes = ranked(task, nodes_of(output));
    lemma_selection(task, budget, item_limit(max_items), nodes);
    let start = unsettled(task, output, budget, max_items);
    lemma_settled(start);
    let p = settled(start);
    assert forall|i: int, j: int|
        #![trigger p.items[i], p.items[j]]
        0 <= i < j < p.items.len() implies identity_of_item(p.items[i]) != identity_of_item(
        p.items[j],
    ) by {
        assert(p.items[i] == start.items[i] && p.items[j] == start.items[j]);
    }
    assert forall|i: int| 0 <= i < p.items.len() implies comes_from(
        task,
        nodes,
        #[trigger] p.items[i],
    ) by {
        assert(p.items[i] == start.items[i]);
    }
}

/// An item's level tells whether its place in the sources is known. Its
/// reference depends only on what tells its node from others, and its revision
/// only on the line it was made of: neither depends on the task.
pub proof fn law_items_tell_of_their_node(
    task: Seq<char>,
    other_task: Seq<char>,
    node: NodeView,
    other: NodeView,
)
    ensures
        ({
            let item = item_of(task, node);
            let same = item_of(other_task, other);
            &&& item.level is L1 <==> item.source is Some || item.location is Some
            &&& node.name == other.name && node.source == other.source && node.location
                == other.location ==> item.id == same.id
            &&& node.raw == other.raw ==> item.revision == same.revision
        }),
{
}

/// The bytes of a package beside those of its estimate.
pub open spec fn frame_bytes(p: PackageView) -> int {
    byte_len_spec(package_json(p)) - byte_len_spec(decimal_spec(p.estimated_tokens))
}

proof fn lemma_frame(p: PackageView, estimate: nat)
    ensures
        frame_bytes(PackageView { estimated_tokens: estimate, ..p }) == frame_bytes(p),
{
    lemma_json_bytes(p);
    lemma_json_bytes(PackageView { estimated_tokens: estimate, ..p });
}

/// What a package's JSON holds in front of its estimate.
pub open spec fn json_front(p: PackageView) -> Seq<char> {
    "{\"version\":"@ + json_string_spec(p.version) + ",\"mode\":"@ + json_string_spec(p.mode)
        + ",\"task\":"@ + json_string_spec(p.task) + ",\"root_nodes\":"@ + array_json(
        p.root_nodes.map_values(|t: Seq<char>| json_string_spec(t)),
    ) + ",\"items\":"@ + array_json(p.items.map_values(|i: ItemView| item_json(i)))
        + ",\"estimated_tokens\":"@
}

proof fn lemma_json_bytes(p: PackageView)
    ensures
        byte_len_spec(package_json(p)) == byte_len_spec(json_front(p)) + byte_len_spec(
            decimal_spec(p.estimated_tokens),
        ) + byte_len_spec(",\"budget_tokens\":"@) + byte_len_spec(decimal_spec(p.budget_tokens))
            + byte_len_spec(",\"candidate_items\":"@) + byte_len_spec(
            decimal_spec(p.candidate_items),
        ) + byte_len_spec(",\"deduplicated_items\":"@) + byte_len_spec(
            decimal_spec(p.deduplicated_items),
        ) + byte_len_spec(",\"dropped_items\":"@) + byte_len_spec(decimal_spec(p.dropped_items))
            + byte_len_spec("}"@),
{
    let x1 = json_front(p) + decimal_spec(p.estimated_tokens);
    let x2 = x1 + ",\"budget_tokens\":"@;
    let x3 = x2 + decimal_spec(p.budget_tokens);
    let x4 = x3 + ",\"candidate_items\":"@;
    let x5 = x4 + decimal_spec(p.candidate_items);
    let x6 = x5 + ",\"deduplicated_items\":"@;
    let x7 = x6 + decimal_spec(p.deduplicated_items);
    let x8 = x7 + ",\"dropped_items\":"@;
    let x9 = x8 + decimal_spec(p.dropped_items);
    lemma_byte_len_add(json_front(p), decimal_spec(p.estimated_tokens));
    lemma_byte_len_add(x1, ",\"budget_tokens\":"@);
    lemma_byte_len_add(x2, decimal_spec(p.budget_tokens));
    lemma_byte_len_add(x3, ",\"candidate_items\":"@);
    lemma_byte_len_add(x4, decimal_spec(p.candidate_items));
    lemma_byte_len_add(x5, ",\"deduplicated_items\":"@);
    lemma_byte_len_add(x6, decimal_spec(p.deduplicated_items));
    lemma_byte_len_add(x7, ",\"dropped_items\":"@);
    lemma_byte_len_add(x8, decimal_spec(p.dropped_items));
    lemma_byte_len_add(x9, "}"@);
}

/// How many bytes a number takes in decimal digits.
pub open spec fn digit_bytes(n: nat) -> nat {
    byte_len_spec(decimal_spec(n))
}

proof fn lemma_measured(task: Seq<char>, output: Seq<char>, budget: nat, max_items: nat)
    ensures
        ({
            let p = package(task, output, budget, max_items);
            let earlier = unmeasured(
                unsettled(task, output, budget, max_items),
            ).estimated_tokens;
            &&& p.estimated_tokens == (frame_bytes(p) + digit_bytes(earlier) + 3) / 4
            &&& tokens_of(package_json(p)) == (frame_bytes(p) + digit_bytes(p.estimated_tokens) + 3)
                / 4
        }),
{
    let p = package(task, output, budget, max_items);
    let start = unsettled(task, output, budget, max_items);
    lemma_settled(start);
    let before = unmeasured(start);
    reveal(refreshed);
    let counted = PackageView { estimated_tokens: before.estimated_tokens, ..p };
    assert(p.estimated_tokens == tokens_of(package_json(counted)));
    lemma_frame(counted, p.estimated_tokens);
    assert(PackageView { estimated_tokens: p.estimated_tokens, ..counted } == p);
}

/// What goes into the prompt is no longer than the package's estimate says, up
/// to the digits in which the estimate itself is written: at most five tokens.
pub proof fn law_estimates_are_close(
    task: Seq<char>,
    output: Seq<char>,
    budget: nat,
    max_items: nat,
)
    requires
        package(task, output, budget, max_items).estimated_tokens <= usize::MAX,
    ensures
        ({
            let p = package(task, output, budget, max_items);
            tokens_of(package_json(p)) <= p.estimated_tokens + 5
        }),
{
    let p = package(task, output, budget, max_items);
    let start = unsettled(task, output, budget, max_items);
    lemma_measured(task, output, budget, max_items);
    lemma_decimal_size(p.estimated_tokens);
    lemma_decimal_nonempty(unmeasured(start).estimated_tokens);
}

/// A number has at least one digit.
proof fn lemma_decimal_nonempty(n: nat)
    ensures
        byte_len_spec(decimal_spec(n)) >= 1,
    decreases n,
{
    if n >= 10 {
        lemma_decimal_nonempty(n / 10);
        lemma_byte_len_add(decimal_spec(n / 10), seq![crate::number::digit_char(n % 10)]);
        assert(decimal_spec(n) =~= decimal_spec(n / 10) + seq![crate::number::digit_char(n % 10)]);
    } else {
        vstd::utf8::is_ascii_chars_encode_utf8(decimal_spec(n));
    }
}

// ---------------------------------------------------------------------------
// Queries and tool output
// ---------------------------------------------------------------------------

/// The first query is always the task itself, there are at most three, and the
/// one made of concepts stays within its limit.
pub proof fn law_queries_start_with_the_task(task: Seq<char>)
    ensures
        1 <= query_variants(task).len() <= 3,
        query_variants(task)[0] == trim_spec(task),
        bounded(concepts(query_tokens(task))).len() <= MAX_QUERY_CHARS,
{
}

/// No concept is asked for twice, and every word of the task that counts is
/// among them.
pub proof fn law_concepts_are_distinct(task: Seq<char>)
    ensures
        concepts(query_tokens(task)).no_duplicates(),
        forall|t: Seq<char>| #[trigger]
            query_tokens(task).contains(t) ==> concepts(query_tokens(task)).contains(t),
{
    let tokens = query_tokens(task);
    let all = tokens + stems(tokens) + groups(stems(tokens), 3) + groups(stems(tokens), 2);
    lemma_distinct(all);
    assert forall|t: Seq<char>| #[trigger] tokens.contains(t) implies concepts(tokens).contains(
        t,
    ) by {
        let i = choose|i: int| 0 <= i < tokens.len() && tokens[i] == t;
        assert(all[i] == t);
        assert(all.contains(t));
    }
}

/// What is kept of a tool's output is its beginning, of at most as many
/// characters as asked for, and output that is short enough is kept whole.
pub proof fn law_tool_output_keeps_its_beginning(
    tool: Seq<char>,
    content: Seq<char>,
    max_chars: nat,
    store_root: Seq<char>,
    existing: Option<Seq<u8>>,
)
    ensures
        stored_output(tool, content, max_chars, store_root, existing) matches Ok(stored) ==> {
            &&& stored.kept_chars <= max_chars
            &&& stored.original_chars == content.len()
            &&& stored.kept_chars <= stored.compact_content.len()
            &&& stored.compact_content.take(stored.kept_chars as int) == content.take(
                stored.kept_chars as int,
            )
            &&& content.len() <= max_chars ==> stored.compact_content == content
        },
{
    if let Ok(stored) = stored_output(tool, content, max_chars, store_root, existing) {
        assert(stored.compact_content.take(stored.kept_chars as int) =~= content.take(
            stored.kept_chars as int,
        ));
    }
}

} // verus!
