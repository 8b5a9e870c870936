//! What a package shows of the graph's answer, and what it leaves out.

use vstd::prelude::*;

use crate::context::evaluation::{
    first_rank_spec, hit_count, is_named, judged_names, node_lines, plain_name,
};
use crate::context::laws::{
    law_ranking_orders_the_nodes, lemma_ranked_member, lemma_refreshed, lemma_selection,
    lemma_settled,
};
use crate::context::node::{
    first_with_prefix, lemma_slot, metadata_field, node_of_line, nodes_of, nodes_of_lines, ranked,
    score, slot, NodeView,
};
use crate::context::output::{stored_output, StoredView, ToolOutputError};
use crate::context::package::{
    chosen, identity, item_json, item_limit, item_of, keeps_budget, package, package_json,
    refreshed, selection, settled, tokens_of, unsettled, ContextRepresentationLevel, ItemView,
    PackageView, Selection,
};
use crate::context::query::symbol_name;
use crate::context::query_laws::is_word;
use crate::context::scoring::lemma_same_name;
use crate::digest::stable_hash_spec;
use crate::json::json_string_spec;
use crate::number::decimal_spec;
use crate::paths::path_join_spec;
use crate::text::{
    byte_len_spec, fields_spec, has_infix, has_prefix, has_suffix, is_white, lines_spec, lower,
    match_at, rsplit_once_spec, trim_spec, words_spec, CharClass,
};
use crate::text_laws::{
    law_characters_take_bytes, law_trimming_spares, lemma_divided, lemma_last_match_is,
};

verus! {

// ---------------------------------------------------------------------------
// Nodes
// ---------------------------------------------------------------------------

proof fn lemma_no_later_mark(name: Seq<char>, told: Seq<char>, j: int)
    requires
        !has_infix(told, " ["@),
        j > name.len(),
    ensures
        !match_at(name + " ["@ + (told + "]"@), " ["@, j),
{
    reveal_strlit(" [");
    reveal_strlit("]");
    let rest = name + " ["@ + (told + "]"@);
    if match_at(rest, " ["@, j) {
        let found = rest.subrange(j, j + 2);
        assert(found[0] == rest[j] && found[1] == rest[j + 1]);
        assert(rest[j] == ' ' && rest[j + 1] == '[');
        assert(rest[name.len() as int + 1] == '[');
        let k = j - name.len() - 2;
        assert(k >= 0);
        assert((told + "]"@)[k + 1] == rest[j + 1]);
        assert(k + 1 < told.len());
        assert(told[k] == rest[j] && told[k + 1] == rest[j + 1]);
        assert(told.subrange(k, k + 2) =~= " ["@);
        assert(match_at(told, " ["@, k));
    }
}

proof fn lemma_name_and_rest(name: Seq<char>, told: Seq<char>)
    requires
        !has_infix(told, " ["@),
    ensures
        rsplit_once_spec(name + " ["@ + (told + "]"@), " ["@) == Some((name, told + "]"@)),
{
    let mark = " ["@;
    let rest = name + mark + (told + "]"@);
    let n = name.len() as int;
    assert(rest.subrange(n, n + mark.len()) =~= mark);
    assert(match_at(rest, mark, n));
    assert forall|j: int| n < j <= rest.len() implies !#[trigger] match_at(rest, mark, j) by {
        lemma_no_later_mark(name, told, j);
    }
    lemma_last_match_is(rest, mark, rest.len() as int, n);
    assert(rest.take(n) =~= name);
    assert(rest.skip(n + mark.len()) =~= told + "]"@);
}

proof fn lemma_line_parts(name: Seq<char>, told: Seq<char>)
    requires
        name.len() > 0,
    ensures
        ({
            let line = "NODE "@ + name + " ["@ + told + "]"@;
            &&& trim_spec(line) == line
            &&& has_prefix(line, "NODE "@)
            &&& line.skip("NODE "@.len() as int) == name + " ["@ + (told + "]"@)
            &&& has_suffix(told + "]"@, "]"@)
            &&& (told + "]"@).take((told + "]"@).len() - "]"@.len()) == told
        }),
{
    reveal_strlit("NODE ");
    reveal_strlit("]");
    let line = "NODE "@ + name + " ["@ + told + "]"@;
    assert(line[0] == 'N');
    assert(line.last() == ']');
    law_trimming_spares(line, CharClass::White);
    assert(line.subrange(0, 5) =~= "NODE "@);
    assert(line.skip(5) =~= name + " ["@ + (told + "]"@));
    let last = told + "]"@;
    assert(last.subrange(last.len() - 1, last.len() as int) =~= "]"@);
    assert(last.take(last.len() - 1) =~= told);
}

/// A line that names a node and tells of it in brackets gives back the name and
/// what it tells.
pub proof fn law_lines_give_back_their_node(name: Seq<char>, told: Seq<char>, ordinal: nat)
    requires
        name.len() > 0,
        !is_white(name[0]),
        !is_white(name.last()),
        !has_infix(told, " ["@),
    ensures
        ({
            let line = "NODE "@ + name + " ["@ + told + "]"@;
            node_of_line(line, ordinal) == Some(
                NodeView {
                    name,
                    source: metadata_field(told, "src="@),
                    location: metadata_field(told, "loc="@),
                    community: metadata_field(told, "community="@),
                    raw: line,
                    ordinal,
                },
            )
        }),
{
    lemma_line_parts(name, told);
    lemma_name_and_rest(name, told);
    law_trimming_spares(name, CharClass::White);
}

proof fn lemma_mark_inside(raw: Seq<char>, n: int, mark: Seq<char>, end: Seq<char>)
    requires
        0 <= n <= raw.len(),
        rsplit_once_spec(raw.skip(n), mark) is Some,
        has_suffix((rsplit_once_spec(raw.skip(n), mark)->0).1, end),
    ensures
        has_infix(raw, mark),
        has_suffix(raw, end),
{
    let body = raw.skip(n);
    lemma_divided(body, mark);
    let (before, after) = rsplit_once_spec(body, mark)->0;
    let i = before.len() as int;
    assert(body == before + mark + after);
    assert(body.subrange(i, i + mark.len()) =~= mark);
    assert(raw.subrange(i + n, i + n + mark.len()) =~= body.subrange(i, i + mark.len()));
    assert(match_at(raw, mark, i + n));
    let lead = raw.take(n) + before + mark;
    assert(lead + after =~= raw.take(n) + body);
    assert(raw =~= lead + after);
    let at = after.len() - end.len();
    assert(after.subrange(at, after.len() as int) == end);
    assert(raw.subrange(raw.len() - end.len(), raw.len() as int) =~= after.subrange(
        at,
        after.len() as int,
    ));
}

/// Only a line that starts with the mark of a node, and ends with what is told
/// of it in brackets, is one.
pub proof fn law_other_lines_are_no_nodes(line: Seq<char>, ordinal: nat)
    ensures
        node_of_line(line, ordinal) is Some ==> has_prefix(trim_spec(line), "NODE "@) && has_suffix(
            trim_spec(line),
            "]"@,
        ) && has_infix(trim_spec(line), " ["@),
{
    if node_of_line(line, ordinal) is Some {
        lemma_mark_inside(trim_spec(line), "NODE "@.len() as int, " ["@, "]"@);
    }
}

/// What is told under a key is what follows the key in the first word that
/// starts with it, and nothing where no word does or nothing follows.
pub proof fn law_what_is_told(told: Seq<char>, key: Seq<char>)
    ensures
        forall|k: int|
            0 <= k < words_spec(told).len() && has_prefix(#[trigger] words_spec(told)[k], key) && (
            forall|j: int| 0 <= j < k ==> !has_prefix(#[trigger] words_spec(told)[j], key)) ==> {
                &&& words_spec(told)[k].len() > key.len() ==> metadata_field(told, key) == Some(
                    words_spec(told)[k].skip(key.len() as int),
                )
                &&& words_spec(told)[k].len() == key.len() ==> metadata_field(told, key) is None
            },
        (forall|k: int|
            0 <= k < words_spec(told).len() ==> !has_prefix(#[trigger] words_spec(told)[k], key))
            ==> metadata_field(told, key) is None,
{
    let all = words_spec(told);
    assert forall|k: int|
        0 <= k < all.len() && has_prefix(#[trigger] all[k], key) && (forall|j: int|
            0 <= j < k ==> !has_prefix(#[trigger] all[j], key)) implies first_with_prefix(all, key)
        == Some(all[k].skip(key.len() as int)) by {
        lemma_first(all, key, k);
    }
    if forall|k: int| 0 <= k < all.len() ==> !has_prefix(#[trigger] all[k], key) {
        lemma_none(all, key);
    }
}

proof fn lemma_first(parts: Seq<Seq<char>>, key: Seq<char>, k: int)
    requires
        0 <= k < parts.len(),
        has_prefix(parts[k], key),
        forall|j: int| 0 <= j < k ==> !has_prefix(#[trigger] parts[j], key),
    ensures
        first_with_prefix(parts, key) == Some(parts[k].skip(key.len() as int)),
    decreases parts.len(),
{
    if k > 0 {
        let rest = parts.drop_first();
        assert(!has_prefix(parts[0], key));
        assert forall|j: int| 0 <= j < k - 1 implies !has_prefix(#[trigger] rest[j], key) by {
            assert(rest[j] == parts[j + 1]);
        }
        assert(rest[k - 1] == parts[k]);
        lemma_first(rest, key, k - 1);
    }
}

proof fn lemma_none(parts: Seq<Seq<char>>, key: Seq<char>)
    requires
        forall|j: int| 0 <= j < parts.len() ==> !has_prefix(#[trigger] parts[j], key),
    ensures
        first_with_prefix(parts, key) is None,
    decreases parts.len(),
{
    if parts.len() > 0 {
        let rest = parts.drop_first();
        assert(!has_prefix(parts[0], key));
        assert forall|j: int| 0 <= j < rest.len() implies !has_prefix(#[trigger] rest[j], key) by {
            assert(rest[j] == parts[j + 1]);
        }
        lemma_none(rest, key);
    }
}

proof fn lemma_nodes(all: Seq<Seq<char>>)
    ensures
        forall|k: int|
            0 <= k < nodes_of_lines(all).len() ==> {
                let node = #[trigger] nodes_of_lines(all)[k];
                &&& node.ordinal < all.len()
                &&& node_of_line(all[node.ordinal as int], node.ordinal) == Some(node)
            },
        forall|i: int|
            0 <= i < all.len() && (#[trigger] node_of_line(all[i], i as nat)) is Some
                ==> nodes_of_lines(all).contains(node_of_line(all[i], i as nat)->0),
    decreases all.len(),
{
    if all.len() > 0 {
        let front = all.drop_last();
        lemma_nodes(front);
        let before = nodes_of_lines(front);
        let after = nodes_of_lines(all);
        let n = (all.len() - 1) as nat;
        assert forall|k: int| 0 <= k < after.len() implies {
            let node = #[trigger] after[k];
            &&& node.ordinal < all.len()
            &&& node_of_line(all[node.ordinal as int], node.ordinal) == Some(node)
        } by {
            if k < before.len() {
                let node = before[k];
                assert(after[k] == node);
                assert(front[node.ordinal as int] == all[node.ordinal as int]);
            } else {
                assert(node_of_line(all.last(), n) == Some(after[k]));
                assert(after[k].ordinal == n);
            }
        }
        assert forall|i: int|
            0 <= i < all.len() && (#[trigger] node_of_line(all[i], i as nat)) is Some implies after.contains(
            node_of_line(all[i], i as nat)->0,
        ) by {
            let node = node_of_line(all[i], i as nat)->0;
            if i < front.len() {
                assert(front[i] == all[i]);
                assert(node_of_line(front[i], i as nat) is Some);
                assert(before.contains(node));
                let k = choose|k: int| 0 <= k < before.len() && before[k] == node;
                assert(after[k] == node);
            } else {
                assert(after[before.len() as int] == node);
            }
        }
    }
}

/// The nodes of an answer are those of its lines, and each knows which line it
/// came from. No line that is a node is left out.
pub proof fn law_nodes_come_from_lines(output: Seq<char>)
    ensures
        forall|k: int|
            0 <= k < nodes_of(output).len() ==> {
                let node = #[trigger] nodes_of(output)[k];
                &&& node.ordinal < lines_spec(output).len()
                &&& node_of_line(lines_spec(output)[node.ordinal as int], node.ordinal) == Some(
                    node,
                )
            },
        forall|i: int|
            0 <= i < lines_spec(output).len() && (#[trigger] node_of_line(
                lines_spec(output)[i],
                i as nat,
            )) is Some ==> nodes_of(output).contains(
                node_of_line(lines_spec(output)[i], i as nat)->0,
            ),
{
    lemma_nodes(lines_spec(output));
}

// ---------------------------------------------------------------------------
// Items
// ---------------------------------------------------------------------------

/// Whether a file of this name holds a program.
pub open spec fn holds_a_program(source: Seq<char>) -> bool {
    has_suffix(source, ".rs"@) || has_suffix(source, ".py"@) || has_suffix(source, ".ts"@)
        || has_suffix(source, ".js"@)
}

/// Whether an item shows this node for the task: its name and its place as they
/// are, a symbol where its source is a program, in more detail where its place
/// is known, and as a root where its name has a word of the task in it.
pub open spec fn item_shows(item: ItemView, task: Seq<char>, node: NodeView) -> bool {
    let words = fields_spec(lower(task), CharClass::NonWord);
    let named = exists|i: int|
        0 <= i < words.len() && byte_len_spec(#[trigger] words[i]) >= 3 && has_infix(
            lower(node.name),
            words[i],
        );
    &&& item.name == node.name
    &&& item.source == node.source
    &&& item.location == node.location
    &&& item.community == node.community
    &&& item.kind == if node.source is Some && holds_a_program(node.source->0) {
        "symbol"@
    } else {
        "node"@
    }
    &&& item.level == if node.source is Some || node.location is Some {
        ContextRepresentationLevel::L1
    } else {
        ContextRepresentationLevel::L0
    }
    &&& named ==> item.reason == "task-root"@
    &&& !named ==> item.reason == "graph-neighbor"@
    &&& item.revision == stable_hash_spec(node.raw)
    &&& item.id == "G"@ + stable_hash_spec(
        node.name + "\u{1f}"@ + (if node.source is Some {
            node.source->0
        } else {
            Seq::empty()
        }) + "\u{1f}"@ + (if node.location is Some {
            node.location->0
        } else {
            Seq::empty()
        }),
    )
}

proof fn lemma_item_shows(task: Seq<char>, node: NodeView)
    ensures
        item_shows(item_of(task, node), task, node),
{
}

/// Whether these are the places among the nodes that the items were made from.
pub open spec fn made_from(
    items: Seq<ItemView>,
    task: Seq<char>,
    nodes: Seq<NodeView>,
    places: Seq<int>,
) -> bool {
    &&& places.len() == items.len()
    &&& forall|i: int|
        0 <= i < places.len() ==> 0 <= #[trigger] places[i] < nodes.len() && items[i] == item_of(
            task,
            nodes[places[i]],
        )
    &&& forall|i: int, j: int|
        #![trigger places[i], places[j]]
        0 <= i < j < places.len() ==> places[i] < places[j]
}

proof fn lemma_selected_places(
    task: Seq<char>,
    budget: nat,
    limit: nat,
    nodes: Seq<NodeView>,
) -> (places: Seq<int>)
    ensures
        made_from(selection(task, budget, limit, nodes).items, task, nodes, places),
        nodes.len() > 0 && limit >= 1 ==> places.len() > 0 && places[0] == 0,
    decreases nodes.len(),
{
    if nodes.len() == 0 {
        Seq::empty()
    } else {
        let front = nodes.drop_last();
        let before = lemma_selected_places(task, budget, limit, front);
        let sel = selection(task, budget, limit, front);
        let after = selection(task, budget, limit, nodes);
        assert(after == chosen(task, budget, limit, sel, nodes.last()));
        if after.items.len() == sel.items.len() {
            assert forall|i: int| 0 <= i < before.len() implies 0 <= #[trigger] before[i]
                < nodes.len() && after.items[i] == item_of(task, nodes[before[i]]) by {
                assert(front[before[i]] == nodes[before[i]]);
            }
            before
        } else {
            let places = before.push(nodes.len() - 1);
            assert forall|i: int| 0 <= i < places.len() implies 0 <= #[trigger] places[i]
                < nodes.len() && after.items[i] == item_of(task, nodes[places[i]]) by {
                if i < before.len() {
                    assert(places[i] == before[i]);
                    assert(front[before[i]] == nodes[before[i]]);
                }
            }
            assert forall|i: int, j: int|
                #![trigger places[i], places[j]]
                0 <= i < j < places.len() implies places[i] < places[j] by {
                assert(places[i] == before[i]);
                if j < before.len() {
                    assert(places[j] == before[j]);
                }
            }
            places
        }
    }
}

/// Whether these nodes of the answer stand for the items of a package, one for
/// one, the best first.
pub open spec fn stand_for(
    chosen_nodes: Seq<NodeView>,
    p: PackageView,
    task: Seq<char>,
    output: Seq<char>,
) -> bool {
    &&& chosen_nodes.len() == p.items.len()
    &&& forall|i: int|
        0 <= i < chosen_nodes.len() ==> nodes_of(output).contains(#[trigger] chosen_nodes[i])
            && item_shows(p.items[i], task, chosen_nodes[i])
    &&& forall|i: int, j: int|
        #![trigger chosen_nodes[i], chosen_nodes[j]]
        0 <= i < j < chosen_nodes.len() ==> score(task, chosen_nodes[i]) >= score(
            task,
            chosen_nodes[j],
        )
}

/// Every item of a package shows a node of the answer, and an item never stands
/// behind one whose node scores less. The first shows a node that no other
/// outscores.
pub proof fn law_packages_show_the_best_first(
    task: Seq<char>,
    output: Seq<char>,
    budget: nat,
    max_items: nat,
)
    ensures
        ({
            let p = package(task, output, budget, max_items);
            exists|chosen_nodes: Seq<NodeView>|
                {
                    &&& #[trigger] stand_for(chosen_nodes, p, task, output)
                    &&& nodes_of(output).len() > 0 ==> chosen_nodes.len() > 0
                    &&& forall|k: int|
                        0 <= k < nodes_of(output).len() ==> score(task, chosen_nodes[0]) >= score(
                            task,
                            #[trigger] nodes_of(output)[k],
                        )
                }
        }),
{
    let p = package(task, output, budget, max_items);
    let start = unsettled(task, output, budget, max_items);
    let nodes = nodes_of(output);
    let order = ranked(task, nodes);
    let limit = item_limit(max_items);
    lemma_settled(start);
    law_ranking_orders_the_nodes(task, output);
    let places = lemma_selected_places(task, budget, limit, order);
    lemma_selection(task, budget, limit, order);
    let picked = Seq::new(p.items.len(), |i: int| order[places[i]]);
    assert forall|i: int| 0 <= i < picked.len() implies nodes.contains(#[trigger] picked[i])
        && item_shows(p.items[i], task, picked[i]) by {
        assert(0 <= places[i] < order.len());
        lemma_ranked_member(task, nodes, places[i]);
        assert(p.items[i] == start.items[i]);
        lemma_item_shows(task, picked[i]);
    }
    assert forall|i: int, j: int|
        #![trigger picked[i], picked[j]]
        0 <= i < j < picked.len() implies score(task, picked[i]) >= score(task, picked[j]) by {
        assert(places[i] < places[j]);
        assert(picked[i] == order[places[i]] && picked[j] == order[places[j]]);
    }
    assert(stand_for(picked, p, task, output));
    assert forall|k: int| 0 <= k < nodes.len() implies score(task, picked[0]) >= score(
        task,
        #[trigger] nodes[k],
    ) by {
        assert(places[0] == 0);
        assert(nodes.contains(nodes[k]));
        lemma_member_ranked(task, nodes, k);
        let r = choose|r: int| 0 <= r < order.len() && order[r] == nodes[k];
        if r > 0 {
            assert(score(task, order[0]) >= score(task, order[r]));
        }
    }
}

proof fn lemma_member_ranked(task: Seq<char>, nodes: Seq<NodeView>, k: int)
    requires
        0 <= k < nodes.len(),
    ensures
        ranked(task, nodes).contains(nodes[k]),
    decreases nodes.len(),
{
    let front = nodes.drop_last();
    let before = ranked(task, front);
    let after = ranked(task, nodes);
    let at = slot(task, before, score(task, nodes.last()));
    lemma_slot(task, before, score(task, nodes.last()));
    if k < front.len() {
        lemma_member_ranked(task, front, k);
        let r = choose|r: int| 0 <= r < before.len() && before[r] == front[k];
        if r < at {
            assert(after[r] == nodes[k]);
        } else {
            assert(after[r + 1] == nodes[k]);
        }
    } else {
        assert(after[at] == nodes[k]);
    }
}

// ---------------------------------------------------------------------------
// What is left out
// ---------------------------------------------------------------------------

/// What tells a node from others: its name, its source and where in it.
pub open spec fn told_apart(node: NodeView) -> Seq<char> {
    node.name + "\u{1f}"@ + (if node.source is Some {
        node.source->0
    } else {
        Seq::empty()
    }) + "\u{1f}"@ + (if node.location is Some {
        node.location->0
    } else {
        Seq::empty()
    })
}

proof fn lemma_seen(task: Seq<char>, budget: nat, limit: nat, nodes: Seq<NodeView>)
    ensures
        ({
            let sel = selection(task, budget, limit, nodes);
            &&& sel.seen.no_duplicates()
            &&& sel.seen.len() + sel.deduplicated == nodes.len()
            &&& forall|k: int|
                0 <= k < nodes.len() ==> sel.seen.contains(told_apart(#[trigger] nodes[k]))
            &&& forall|i: int|
                0 <= i < sel.seen.len() ==> exists|k: int|
                    0 <= k < nodes.len() && told_apart(#[trigger] nodes[k])
                        == #[trigger] sel.seen[i]
        }),
    decreases nodes.len(),
{
    if nodes.len() > 0 {
        let front = nodes.drop_last();
        lemma_seen(task, budget, limit, front);
        let before = selection(task, budget, limit, front);
        let after = selection(task, budget, limit, nodes);
        let who = told_apart(nodes.last());
        assert(identity(nodes.last()) == who);
        assert(after == chosen(task, budget, limit, before, nodes.last()));
        assert(after.seen == if before.seen.contains(who) {
            before.seen
        } else {
            before.seen.push(who)
        });
        assert forall|k: int| 0 <= k < nodes.len() implies after.seen.contains(
            told_apart(#[trigger] nodes[k]),
        ) by {
            if k < front.len() {
                assert(front[k] == nodes[k]);
                assert(before.seen.contains(told_apart(front[k])));
                let i = choose|i: int|
                    0 <= i < before.seen.len() && before.seen[i] == told_apart(front[k]);
                assert(after.seen[i] == told_apart(front[k]));
            } else if !before.seen.contains(who) {
                assert(after.seen[before.seen.len() as int] == who);
            }
        }
        assert forall|i: int| 0 <= i < after.seen.len() implies exists|k: int|
            0 <= k < nodes.len() && told_apart(#[trigger] nodes[k])
                == #[trigger] after.seen[i] by {
            if i < before.seen.len() {
                let k = choose|k: int|
                    0 <= k < front.len() && told_apart(#[trigger] front[k]) == before.seen[i];
                assert(nodes[k] == front[k]);
                assert(told_apart(nodes[k]) == after.seen[i]);
            } else {
                assert(told_apart(nodes[nodes.len() - 1]) == after.seen[i]);
            }
        }
    }
}

/// Whether these are what tells the nodes apart, each once.
pub open spec fn are_told_apart(who: Seq<Seq<char>>, nodes: Seq<NodeView>) -> bool {
    &&& who.no_duplicates()
    &&& forall|k: int| 0 <= k < nodes.len() ==> who.contains(told_apart(#[trigger] nodes[k]))
    &&& forall|i: int|
        #![trigger who[i]]
        0 <= i < who.len() ==> exists|k: int|
            0 <= k < nodes.len() && told_apart(#[trigger] nodes[k]) == who[i]
}

/// What came again is counted: the answer has as many nodes as there are
/// different ones, and as many more as came again.
pub proof fn law_repeated_nodes_are_counted(
    task: Seq<char>,
    output: Seq<char>,
    budget: nat,
    max_items: nat,
)
    ensures
        ({
            let p = package(task, output, budget, max_items);
            exists|who: Seq<Seq<char>>| #[trigger]
                are_told_apart(who, ranked(task, nodes_of(output))) && nodes_of(output).len()
                    == who.len() + p.deduplicated_items
        }),
{
    let start = unsettled(task, output, budget, max_items);
    let nodes = nodes_of(output);
    let order = ranked(task, nodes);
    let limit = item_limit(max_items);
    lemma_settled(start);
    law_ranking_orders_the_nodes(task, output);
    lemma_seen(task, budget, limit, order);
    let sel = selection(task, budget, limit, order);
    assert forall|i: int|
        #![trigger sel.seen[i]]
        0 <= i < sel.seen.len() implies exists|k: int|
        0 <= k < order.len() && told_apart(#[trigger] order[k]) == sel.seen[i] by {}
    assert(are_told_apart(sel.seen, order));
}

/// The estimate of these items: a token for every four bytes of each.
pub open spec fn items_tokens(items: Seq<ItemView>) -> nat
    decreases items.len(),
{
    if items.len() == 0 {
        0
    } else {
        items_tokens(items.drop_last()) + (byte_len_spec(item_json(items.last())) + 3) / 4
    }
}

proof fn lemma_chosen_tokens(task: Seq<char>, budget: nat, limit: nat, nodes: Seq<NodeView>)
    ensures
        ({
            let sel = selection(task, budget, limit, nodes);
            sel.tokens <= tokens_of(task) + 48 + items_tokens(sel.items)
        }),
    decreases nodes.len(),
{
    if nodes.len() > 0 {
        let front = nodes.drop_last();
        lemma_chosen_tokens(task, budget, limit, front);
        let before = selection(task, budget, limit, front);
        let after = selection(task, budget, limit, nodes);
        assert(after == chosen(task, budget, limit, before, nodes.last()));
        if after.items.len() > before.items.len() {
            assert(after.items.drop_last() =~= before.items);
        }
    }
}

/// Whether the node at this place is the first of its kind among the nodes.
pub open spec fn is_first(nodes: Seq<NodeView>, k: int) -> bool {
    &&& 0 <= k < nodes.len()
    &&& forall|j: int| 0 <= j < k ==> told_apart(#[trigger] nodes[j]) != told_apart(nodes[k])
}

/// What one more node does to what was chosen.
proof fn lemma_one_more(task: Seq<char>, budget: nat, limit: nat, sel: Selection, node: NodeView)
    requires
        budget <= usize::MAX,
    ensures
        ({
            let after = chosen(task, budget, limit, sel, node);
            let item = item_of(task, node);
            let cost = tokens_of(item_json(item));
            &&& after.items == sel.items || after.items == sel.items.push(item)
            &&& after.tokens >= sel.tokens || after.tokens == usize::MAX
            &&& !sel.seen.contains(told_apart(node)) && after.items == sel.items ==> {
                &&& after.tokens == sel.tokens
                &&& sel.items.len() >= limit || sel.tokens + cost > budget
            }
        }),
{
    let after = chosen(task, budget, limit, sel, node);
    let item = item_of(task, node);
    assert(identity(node) == told_apart(node));
    assert(sel.items.push(item).len() == sel.items.len() + 1);
}

proof fn lemma_stays_left_out(
    before: Selection,
    after: Selection,
    next: ItemView,
    budget: nat,
    limit: nat,
    item: ItemView,
    cost: nat,
)
    requires
        budget <= usize::MAX,
        cost >= 1,
        after.items == before.items || after.items == before.items.push(next),
        after.tokens >= before.tokens || after.tokens == usize::MAX,
        before.items.contains(item) || before.items.len() >= limit || before.tokens + cost > budget,
    ensures
        after.items.contains(item) || after.items.len() >= limit || after.tokens + cost > budget,
{
    if before.items.contains(item) {
        let i = choose|i: int| 0 <= i < before.items.len() && before.items[i] == item;
        assert(after.items[i] == item);
    }
}

proof fn lemma_item_costs(item: ItemView)
    ensures
        tokens_of(item_json(item)) >= 1,
{
    let text = item_json(item);
    assert(text.last() == '}') by {
        reveal_strlit("}");
    }
    law_characters_take_bytes(text);
}

proof fn lemma_not_seen_yet(
    task: Seq<char>,
    budget: nat,
    limit: nat,
    nodes: Seq<NodeView>,
)
    requires
        nodes.len() > 0,
        is_first(nodes, nodes.len() - 1),
    ensures
        !selection(task, budget, limit, nodes.drop_last()).seen.contains(told_apart(nodes.last())),
{
    let front = nodes.drop_last();
    lemma_seen(task, budget, limit, front);
    let seen = selection(task, budget, limit, front).seen;
    let who = told_apart(nodes.last());
    if seen.contains(who) {
        let i = choose|i: int| 0 <= i < seen.len() && seen[i] == who;
        let j = choose|j: int| 0 <= j < front.len() && told_apart(#[trigger] front[j]) == seen[i];
        assert(nodes[j] == front[j]);
    }
}

proof fn lemma_left_out(task: Seq<char>, budget: nat, limit: nat, nodes: Seq<NodeView>, k: int)
    requires
        is_first(nodes, k),
        budget <= usize::MAX,
    ensures
        ({
            let sel = selection(task, budget, limit, nodes);
            let item = item_of(task, nodes[k]);
            ||| sel.items.contains(item)
            ||| sel.items.len() >= limit
            ||| sel.tokens + tokens_of(item_json(item)) > budget
        }),
    decreases nodes.len(),
{
    let front = nodes.drop_last();
    let before = selection(task, budget, limit, front);
    let after = selection(task, budget, limit, nodes);
    let item = item_of(task, nodes[k]);
    let cost = tokens_of(item_json(item));
    assert(after == chosen(task, budget, limit, before, nodes.last()));
    lemma_one_more(task, budget, limit, before, nodes.last());
    if k < front.len() {
        assert forall|j: int| 0 <= j < k implies told_apart(#[trigger] front[j]) != told_apart(
            front[k],
        ) by {
            assert(front[j] == nodes[j]);
        }
        assert(front[k] == nodes[k]);
        lemma_left_out(task, budget, limit, front, k);
        lemma_item_costs(item);
        lemma_stays_left_out(
            before,
            after,
            item_of(task, nodes.last()),
            budget,
            limit,
            item,
            cost,
        );
    } else {
        lemma_not_seen_yet(task, budget, limit, nodes);
        if after.items != before.items {
            assert(after.items[before.items.len() as int] == item);
        }
    }
}

/// Whether a package would not keep its budget.
pub open spec fn breaks_budget(p: PackageView) -> bool {
    p.estimated_tokens > p.budget_tokens || (byte_len_spec(package_json(p)) + 3) / 4
        > p.budget_tokens
}

proof fn lemma_cut(p: PackageView) -> (more: PackageView)
    ensures
        settled(p).items.len() < p.items.len() ==> {
            &&& more.items == p.items.take(settled(p).items.len() as int + 1)
            &&& more.task == p.task && more.version == p.version && more.mode == p.mode
            &&& more.budget_tokens == p.budget_tokens
            &&& more.candidate_items == p.candidate_items
            &&& more.deduplicated_items == p.deduplicated_items
            &&& breaks_budget(more)
        },
    decreases p.items.len(),
{
    let q = refreshed(p);
    lemma_refreshed(p);
    lemma_settled(p);
    if keeps_budget(q) || p.items.len() <= 1 {
        q
    } else {
        let less = PackageView { items: p.items.drop_last(), ..q };
        lemma_settled(less);
        let more = lemma_cut(less);
        let n = settled(p).items.len() as int;
        if n < less.items.len() {
            assert(less.items.take(n + 1) =~= p.items.take(n + 1));
            more
        } else {
            assert(p.items.take(n + 1) =~= p.items);
            reveal(keeps_budget);
            q
        }
    }
}

/// Whether a package of the same task with these items would break the budget.
pub open spec fn too_much(p: PackageView, items: Seq<ItemView>) -> bool {
    exists|more: PackageView|
        {
            &&& #[trigger] breaks_budget(more)
            &&& more.items == items
            &&& more.task == p.task
            &&& more.budget_tokens == p.budget_tokens
            &&& more.candidate_items == p.candidate_items
        }
}

/// No node is left out without need: a node that did not come before, and that
/// the package does not show, is left out because the package has all the items
/// that it may have, because the estimates of the items leave no room for it,
/// or because the package with one item more would break its budget.
pub proof fn law_nothing_is_left_out_without_need(
    task: Seq<char>,
    output: Seq<char>,
    budget: nat,
    max_items: nat,
    k: int,
)
    requires
        budget <= usize::MAX,
        is_first(ranked(task, nodes_of(output)), k),
    ensures
        ({
            let p = package(task, output, budget, max_items);
            let node = ranked(task, nodes_of(output))[k];
            let item = item_of(task, node);
            ||| p.items.contains(item)
            ||| p.items.len() >= max_items && p.items.len() >= 1
            ||| (byte_len_spec(task) + 3) / 4 + 48 + items_tokens(p.items) + (byte_len_spec(
                item_json(item),
            ) + 3) / 4 > budget
            ||| exists|x: ItemView| #[trigger] too_much(p, p.items.push(x))
        }),
{
    let p = package(task, output, budget, max_items);
    let start = unsettled(task, output, budget, max_items);
    let order = ranked(task, nodes_of(output));
    let limit = item_limit(max_items);
    let sel = selection(task, budget, limit, order);
    lemma_settled(start);
    let n = p.items.len() as int;
    if n < start.items.len() {
        let more = lemma_cut(start);
        let x = start.items[n];
        assert(start.items.take(n + 1) =~= p.items.push(x));
        assert(breaks_budget(more));
        assert(too_much(p, p.items.push(x)));
    } else {
        assert(p.items =~= sel.items);
        lemma_left_out(task, budget, limit, order, k);
        lemma_chosen_tokens(task, budget, limit, order);
    }
}

/// A package starts with what it is: its version, how it was made, and the task
/// without white space around it. Its roots are its first items, three at most.
pub proof fn law_packages_say_what_they_are(
    task: Seq<char>,
    output: Seq<char>,
    budget: nat,
    max_items: nat,
)
    ensures
        ({
            let p = package(task, output, budget, max_items);
            &&& p.version == "1"@
            &&& p.mode == "graph_compact"@
            &&& p.task == trim_spec(task)
            &&& p.budget_tokens == budget
            &&& p.items.len() <= 3 ==> p.root_nodes.len() == p.items.len()
            &&& p.items.len() > 3 ==> p.root_nodes.len() == 3
            &&& forall|i: int|
                0 <= i < p.root_nodes.len() ==> #[trigger] p.root_nodes[i] == p.items[i].id
        }),
{
    lemma_settled(unsettled(task, output, budget, max_items));
}

/// A token stands for four bytes, and a part of four bytes takes a token too.
pub proof fn law_tokens_are_four_bytes(text: Seq<char>)
    ensures
        byte_len_spec(text) <= 4 * tokens_of(text) < byte_len_spec(text) + 4,
{
}

proof fn lemma_exact_tokens(task: Seq<char>, budget: nat, limit: nat, nodes: Seq<NodeView>)
    ensures
        ({
            let sel = selection(task, budget, limit, nodes);
            let sum = tokens_of(task) + 48 + items_tokens(sel.items);
            &&& sum <= usize::MAX ==> sel.tokens == sum
            &&& sum > usize::MAX ==> sel.tokens == usize::MAX
            &&& sel.items.len() > 1 ==> sel.tokens <= budget
        }),
    decreases nodes.len(),
{
    if nodes.len() > 0 {
        let front = nodes.drop_last();
        lemma_exact_tokens(task, budget, limit, front);
        let before = selection(task, budget, limit, front);
        let after = selection(task, budget, limit, nodes);
        assert(after == chosen(task, budget, limit, before, nodes.last()));
        if after.items.len() > before.items.len() {
            assert(after.items.drop_last() =~= before.items);
        }
    }
}

proof fn lemma_fewer_tokens(items: Seq<ItemView>, n: int)
    requires
        0 <= n <= items.len(),
    ensures
        items_tokens(items.take(n)) <= items_tokens(items),
    decreases items.len() - n,
{
    if n == items.len() {
        assert(items.take(n) =~= items);
    } else {
        lemma_fewer_tokens(items, n + 1);
        assert(items.take(n + 1).drop_last() =~= items.take(n));
    }
}

/// A package has at most as many items as it may have, and one in any case. The
/// items of a package of more than one keep the budget by their own estimates
/// too, with those of the task and of what stands around the items.
pub proof fn law_items_keep_the_budget(
    task: Seq<char>,
    output: Seq<char>,
    budget: nat,
    max_items: nat,
)
    requires
        budget < usize::MAX,
    ensures
        ({
            let p = package(task, output, budget, max_items);
            &&& p.items.len() <= max_items || p.items.len() <= 1
            &&& p.items.len() > 1 ==> (byte_len_spec(task) + 3) / 4 + 48 + items_tokens(p.items)
                <= budget
        }),
{
    let p = package(task, output, budget, max_items);
    let start = unsettled(task, output, budget, max_items);
    let limit = item_limit(max_items);
    let order = ranked(task, nodes_of(output));
    lemma_settled(start);
    lemma_selection(task, budget, limit, order);
    lemma_exact_tokens(task, budget, limit, order);
    lemma_fewer_tokens(start.items, p.items.len() as int);
}

// ---------------------------------------------------------------------------
// Comparison
// ---------------------------------------------------------------------------

/// Names are compared without case and without what is no part of a symbol's
/// name around them. A word in small letters is compared as it is.
pub proof fn law_names_are_compared(name: Seq<char>, names: Seq<Seq<char>>)
    ensures
        plain_name(name) == lower(symbol_name(name)),
        is_word(name) && name.last() != ')' ==> plain_name(name) == name,
        is_named(names, name) <==> exists|k: int|
            0 <= k < names.len() && lower(symbol_name(#[trigger] names[k])) == lower(
                symbol_name(name),
            ),
{
    if is_word(name) && name.last() != ')' {
        lemma_same_name(name);
        assert(lower(name) =~= name);
    }
    if is_named(names, name) {
        let k = choose|k: int|
            0 <= k < names.len() && plain_name(#[trigger] names[k]) == plain_name(name);
        assert(lower(symbol_name(names[k])) == lower(symbol_name(name)));
    }
    if exists|k: int|
        0 <= k < names.len() && lower(symbol_name(#[trigger] names[k])) == lower(
            symbol_name(name),
        ) {
        let k = choose|k: int|
            0 <= k < names.len() && lower(symbol_name(#[trigger] names[k])) == lower(
                symbol_name(name),
            );
        assert(plain_name(names[k]) == plain_name(name));
    }
}

/// The expected names that were found are counted one by one.
pub proof fn law_hits_are_counted(expected: Seq<Seq<char>>, found: Seq<Seq<char>>)
    ensures
        hit_count(expected, found) == expected.filter(
            |name: Seq<char>|
                exists|k: int|
                    0 <= k < found.len() && plain_name(#[trigger] found[k]) == plain_name(name),
        ).len(),
    decreases expected.len(),
{
    reveal(Seq::filter);
    if expected.len() > 0 {
        law_hits_are_counted(expected.drop_last(), found);
        assert(is_named(found, expected.last()) <==> exists|k: int|
            0 <= k < found.len() && plain_name(#[trigger] found[k]) == plain_name(expected.last()));
    }
}

/// The first rank is that of the first name found that is expected, counted
/// from one.
pub proof fn law_first_ranks(expected: Seq<Seq<char>>, found: Seq<Seq<char>>)
    ensures
        first_rank_spec(expected, found) matches Some(rank) ==> {
            &&& 1 <= rank <= found.len()
            &&& is_named(expected, found[rank - 1])
            &&& forall|k: int| 0 <= k < rank - 1 ==> !is_named(expected, #[trigger] found[k])
        },
        first_rank_spec(expected, found) is None ==> forall|k: int|
            0 <= k < found.len() ==> !is_named(expected, #[trigger] found[k]),
    decreases found.len(),
{
    if found.len() > 0 {
        let front = found.drop_last();
        law_first_ranks(expected, front);
        match first_rank_spec(expected, front) {
            Some(rank) => {
                assert(front[rank - 1] == found[rank - 1]);
                assert forall|k: int| 0 <= k < rank - 1 implies !is_named(
                    expected,
                    #[trigger] found[k],
                ) by {
                    assert(front[k] == found[k]);
                }
            },
            None => {
                assert forall|k: int| 0 <= k < front.len() implies !is_named(
                    expected,
                    #[trigger] found[k],
                ) by {
                    assert(front[k] == found[k]);
                }
            },
        }
    }
}

/// What is judged of a package is the names of its first five items.
pub proof fn law_five_items_are_judged(p: PackageView)
    ensures
        p.items.len() <= 5 ==> judged_names(p).len() == p.items.len(),
        p.items.len() > 5 ==> judged_names(p).len() == 5,
        forall|i: int|
            0 <= i < judged_names(p).len() ==> #[trigger] judged_names(p)[i] == p.items[i].name,
{
}

/// The nodes of an answer are counted by the lines that start with their mark.
pub proof fn law_node_lines_are_counted(all: Seq<Seq<char>>)
    ensures
        node_lines(all) == all.filter(|line: Seq<char>| has_prefix(line, "NODE "@)).len(),
    decreases all.len(),
{
    reveal(Seq::filter);
    if all.len() > 0 {
        law_node_lines_are_counted(all.drop_last());
    }
}

// ---------------------------------------------------------------------------
// Tool output
// ---------------------------------------------------------------------------

/// A tool's output of more than 64 MiB is refused, and so is one whose place
/// holds something else. Output that is short enough is kept whole and stored
/// nowhere. Otherwise its beginning is kept, with a note of how long it was and
/// where the whole is, under a name that depends on the content alone.
pub proof fn law_tool_output_is_kept(
    tool: Seq<char>,
    content: Seq<char>,
    max_chars: nat,
    store_root: Seq<char>,
    existing: Option<Seq<u8>>,
)
    ensures
        ({
            let answer = stored_output(tool, content, max_chars, store_root, existing);
            let bytes = vstd::utf8::encode_utf8(content);
            let hash = stable_hash_spec(content);
            let collides = content.len() > max_chars && existing is Some && existing->0 != bytes;
            &&& answer == Err::<StoredView, ToolOutputError>(ToolOutputError::TooLarge) <==> bytes.len()
                > 67108864
            &&& answer == Err::<StoredView, ToolOutputError>(ToolOutputError::RevisionCollision)
                <==> bytes.len() <= 67108864 && collides
            &&& bytes.len() <= 67108864 && !collides ==> answer is Ok
            &&& answer is Ok ==> {
                let kept = answer->Ok_0;
                &&& kept.original_chars == content.len()
                &&& content.len() <= max_chars ==> kept.compact_content == content
                    && kept.raw_path.len() == 0 && kept.kept_chars == content.len()
                &&& content.len() > max_chars ==> {
                    &&& kept.kept_chars == max_chars
                    &&& kept.raw_path == path_join_spec(store_root, "tool-output-"@ + hash + ".log"@)
                    &&& kept.compact_content == content.take(max_chars as int)
                        + "\n\n{\"status\":\"TRUNCATED\",\"tool\":"@ + json_string_spec(tool)
                        + ",\"original_chars\":"@ + decimal_spec(content.len())
                        + ",\"kept_chars\":"@ + decimal_spec(max_chars) + ",\"raw_ref\":"@
                        + json_string_spec(kept.raw_path) + ",\"revision\":\""@ + hash + "\"}"@
                }
            }
        }),
{
}

} // verus!
