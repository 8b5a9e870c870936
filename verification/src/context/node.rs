//! The nodes that the code graph answers with, and their rank for a task.

use vstd::prelude::*;

use crate::context::query::{
    call_intent, graphify_call_intent, hints, meaningful_query_tokens, normalize_symbol_name,
    normalized_symbol_tokens, query_stem, query_tokens, stem, symbol_hints, symbol_name,
    symbol_parts,
};
use crate::text::{
    byte_len, byte_len_spec, contains, copy_opt, ends_with, has_infix, has_prefix, has_suffix, has_text,
    lines, lines_spec, lower, opt_view, rsplit_once, rsplit_once_spec, same_text, starts_with,
    strip_prefix, strip_suffix, to_lower, trim, trim_class, trim_class_spec, trim_spec, views,
    words, words_spec, CharClass,
};

verus! {

/// A node of the code graph, with the line that it came from.
#[derive(Debug)]
pub struct ParsedNode {
    pub name: String,
    pub source: Option<String>,
    pub location: Option<String>,
    pub community: Option<String>,
    pub raw: String,
    pub ordinal: usize,
}

#[verifier::ext_equal]
pub struct NodeView {
    pub name: Seq<char>,
    pub source: Option<Seq<char>>,
    pub location: Option<Seq<char>>,
    pub community: Option<Seq<char>>,
    pub raw: Seq<char>,
    pub ordinal: nat,
}

impl View for ParsedNode {
    type V = NodeView;

    open spec fn view(&self) -> NodeView {
        NodeView {
            name: self.name@,
            source: opt_view(self.source),
            location: opt_view(self.location),
            community: opt_view(self.community),
            raw: self.raw@,
            ordinal: self.ordinal as nat,
        }
    }
}

impl Clone for ParsedNode {
    fn clone(&self) -> (res: Self)
        ensures
            res == *self,
    {
        ParsedNode {
            name: self.name.clone(),
            source: copy_opt(&self.source),
            location: copy_opt(&self.location),
            community: copy_opt(&self.community),
            raw: self.raw.clone(),
            ordinal: self.ordinal,
        }
    }
}

pub open spec fn node_views(v: Seq<ParsedNode>) -> Seq<NodeView> {
    v.map_values(|n: ParsedNode| n@)
}

// ---------------------------------------------------------------------------
// Parsing
// ---------------------------------------------------------------------------

/// What follows the key in the first word that starts with it.
pub open spec fn first_with_prefix(parts: Seq<Seq<char>>, key: Seq<char>) -> Option<Seq<char>>
    decreases parts.len(),
{
    if parts.len() == 0 {
        None
    } else if has_prefix(parts[0], key) {
        Some(parts[0].skip(key.len() as int))
    } else {
        first_with_prefix(parts.drop_first(), key)
    }
}

/// The value of a key in a node's metadata. An empty value counts as none.
pub open spec fn metadata_field(metadata: Seq<char>, key: Seq<char>) -> Option<Seq<char>> {
    match first_with_prefix(words_spec(metadata), key) {
        Some(value) => if value.len() > 0 {
            Some(value)
        } else {
            None
        },
        None => None,
    }
}

/// A line `NODE name [key=value ...]` as a node.
pub open spec fn node_of_line(line: Seq<char>, ordinal: nat) -> Option<NodeView> {
    let raw = trim_spec(line);
    if !has_prefix(raw, "NODE "@) {
        None
    } else {
        match rsplit_once_spec(raw.skip("NODE "@.len() as int), " ["@) {
            None => None,
            Some((name, rest)) => if !has_suffix(rest, "]"@) {
                None
            } else {
                let metadata = rest.take(rest.len() - "]"@.len());
                Some(
                    NodeView {
                        name: trim_spec(name),
                        source: metadata_field(metadata, "src="@),
                        location: metadata_field(metadata, "loc="@),
                        community: metadata_field(metadata, "community="@),
                        raw,
                        ordinal,
                    },
                )
            },
        }
    }
}

/// The nodes in these lines, each with its line's number.
pub open spec fn nodes_of_lines(all: Seq<Seq<char>>) -> Seq<NodeView>
    decreases all.len(),
{
    if all.len() == 0 {
        Seq::empty()
    } else {
        let before = nodes_of_lines(all.drop_last());
        match node_of_line(all.last(), (all.len() - 1) as nat) {
            Some(node) => before.push(node),
            None => before,
        }
    }
}

/// The nodes in the code graph's answer.
pub open spec fn nodes_of(output: Seq<char>) -> Seq<NodeView> {
    nodes_of_lines(lines_spec(output))
}

fn field(metadata: &Vec<String>, key: &str) -> (res: Option<String>)
    ensures
        opt_view(res) == (match first_with_prefix(views(metadata@), key@) {
            Some(value) => if value.len() > 0 {
                Some(value)
            } else {
                None
            },
            None => None,
        }),
{
    let ghost all = views(metadata@);
    let mut i: usize = 0;
    assert(all.skip(0) =~= all);
    while i < metadata.len()
        invariant
            i <= metadata@.len(),
            all == views(metadata@),
            first_with_prefix(all, key@) == first_with_prefix(all.skip(i as int), key@),
        decreases metadata@.len() - i,
    {
        assert(all.skip(i as int)[0] == metadata@[i as int]@);
        assert(all.skip(i as int).drop_first() =~= all.skip(i + 1));
        if let Some(value) = strip_prefix(metadata[i].as_str(), key) {
            if value.as_str().is_empty() {
                return None;
            }
            return Some(value);
        }
        i += 1;
    }
    None
}

pub open spec fn opt_node_view(o: Option<ParsedNode>) -> Option<NodeView> {
    match o {
        Some(node) => Some(node@),
        None => None,
    }
}

pub fn parse_node(line: &str, ordinal: usize) -> (res: Option<ParsedNode>)
    ensures
        opt_node_view(res) == node_of_line(line@, ordinal as nat),
{
    let raw = trim(line);
    let body = match strip_prefix(raw.as_str(), "NODE ") {
        Some(body) => body,
        None => {
            return None;
        },
    };
    let (name, rest) = match rsplit_once(body.as_str(), " [") {
        Some(parts) => parts,
        None => {
            return None;
        },
    };
    let metadata = match strip_suffix(rest.as_str(), "]") {
        Some(metadata) => metadata,
        None => {
            return None;
        },
    };
    let parts = words(metadata.as_str());
    Some(
        ParsedNode {
            name: trim(name.as_str()),
            source: field(&parts, "src="),
            location: field(&parts, "loc="),
            community: field(&parts, "community="),
            raw,
            ordinal,
        },
    )
}

pub fn parse_nodes(output: &str) -> (res: Vec<ParsedNode>)
    ensures
        node_views(res@) == nodes_of(output@),
{
    let all = lines(output);
    let ghost texts = views(all@);
    let mut res: Vec<ParsedNode> = Vec::new();
    let mut i: usize = 0;
    assert(node_views(res@) =~= nodes_of_lines(texts.take(0)));
    while i < all.len()
        invariant
            i <= all@.len(),
            texts == views(all@),
            node_views(res@) == nodes_of_lines(texts.take(i as int)),
        decreases all@.len() - i,
    {
        let ghost done = node_views(res@);
        assert(texts.take(i + 1).drop_last() =~= texts.take(i as int));
        assert(texts.take(i + 1).last() == all@[i as int]@);
        if let Some(node) = parse_node(all[i].as_str(), i) {
            let ghost one = node@;
            res.push(node);
            assert(node_views(res@) =~= done.push(one));
        }
        i += 1;
    }
    assert(texts.take(i as int) =~= texts);
    res
}

// ---------------------------------------------------------------------------
// Scoring
// ---------------------------------------------------------------------------

/// Whether a source file holds tests, benchmarks, scripts or documents.
pub open spec fn non_production(source: Seq<char>) -> bool {
    ||| has_infix(source, "/tests/"@)
    ||| has_infix(source, "_test."@)
    ||| has_infix(source, "_tests."@)
    ||| has_infix(source, "/test_"@)
    ||| has_infix(source, "/benches/"@)
    ||| has_infix(source, "benchmark"@)
    ||| has_prefix(source, "scripts/"@)
    ||| has_prefix(source, "docs/"@)
}

pub fn is_non_production_source(source: &str) -> (res: bool)
    ensures
        res == non_production(source@),
{
    contains(source, "/tests/") || contains(source, "_test.") || contains(source, "_tests.")
        || contains(source, "/test_") || contains(source, "/benches/") || contains(
        source,
        "benchmark",
    ) || starts_with(source, "scripts/") || starts_with(source, "docs/")
}

/// Whether a name is so common that everything leads to it.
pub open spec fn generic_hub(name: Seq<char>) -> bool {
    let bare = trim_class_spec(name, CharClass::NonWord);
    ||| bare == "app"@
    ||| bare == "config"@
    ||| bare == "main"@
    ||| bare == "path"@
    ||| bare == "result"@
    ||| bare == "session"@
    ||| bare == "string"@
    ||| bare == "vec"@
}

pub fn is_generic_hub(name: &str) -> (res: bool)
    ensures
        res == generic_hub(name@),
{
    let bare = trim_class(name, CharClass::NonWord);
    let bare = bare.as_str();
    same_text(bare, "app") || same_text(bare, "config") || same_text(bare, "main") || same_text(
        bare,
        "path",
    ) || same_text(bare, "result") || same_text(bare, "session") || same_text(bare, "string")
        || same_text(bare, "vec")
}

/// Whether a text mentions a word, or a stem of it that is long enough.
pub open spec fn mentions(text: Seq<char>, token: Seq<char>) -> bool {
    has_infix(text, token) || (byte_len_spec(stem(token)) >= 4 && has_infix(text, stem(token)))
}

/// What one word of the task adds to a node's score.
pub open spec fn token_points(
    token: Seq<char>,
    name: Seq<char>,
    source: Seq<char>,
    community: Seq<char>,
) -> int {
    let for_name: int = if symbol_name(name) == token {
        15_000
    } else if symbol_parts(name).contains(token) || symbol_parts(name).contains(stem(token)) {
        6_000
    } else if mentions(name, token) {
        2_500
    } else {
        0
    };
    let for_source: int = if mentions(source, token) {
        900
    } else {
        0
    };
    let for_community: int = if mentions(community, token) {
        450
    } else {
        0
    };
    for_name + for_source + for_community
}

/// What all words of the task add.
pub open spec fn tokens_points(
    tokens: Seq<Seq<char>>,
    name: Seq<char>,
    source: Seq<char>,
    community: Seq<char>,
) -> int
    decreases tokens.len(),
{
    if tokens.len() == 0 {
        0
    } else {
        tokens_points(tokens.drop_last(), name, source, community) + token_points(
            tokens.last(),
            name,
            source,
            community,
        )
    }
}

pub open spec fn text_or_empty(o: Option<Seq<char>>) -> Seq<char> {
    match o {
        Some(s) => s,
        None => Seq::empty(),
    }
}

/// Whether the task hints at the symbol of this name.
pub open spec fn is_hinted(task: Seq<char>, name: Seq<char>) -> bool {
    exists|i: int|
        0 <= i < hints(task).len() && symbol_name(lower(#[trigger] hints(task)[i]))
            == symbol_name(name)
}

/// How well a node fits a task.
pub open spec fn score(task: Seq<char>, node: NodeView) -> int {
    let name = lower(node.name);
    let source = lower(text_or_empty(node.source));
    let community = lower(text_or_empty(node.community));
    let hint: int = if is_hinted(task, name) {
        25_000
    } else {
        0
    };
    let called: int = if call_intent(task) && (has_suffix(name, "()"@) || has_infix(name, "::"@)) {
        1_500
    } else {
        0
    };
    let origin: int = if non_production(source) {
        -4_000
    } else if has_suffix(source, ".rs"@) {
        700
    } else {
        0
    };
    let hub: int = if generic_hub(name) {
        -5_000
    } else {
        0
    };
    let known: int = (if node.source is Some {
        100int
    } else {
        0int
    }) + (if node.location is Some {
        20int
    } else {
        0int
    });
    hint + tokens_points(query_tokens(task), name, source, community) + called + origin + hub
        + known - node.ordinal
}

fn is_mentioned(text: &str, token: &str, stemmed: &str) -> (res: bool)
    requires
        stemmed@ == stem(token@),
    ensures
        res == mentions(text@, token@),
{
    contains(text, token) || (byte_len(stemmed) >= 4 && contains(text, stemmed))
}

fn score_token(token: &str, name: &str, source: &str, community: &str) -> (res: i128)
    ensures
        res == token_points(token@, name@, source@, community@),
        0 <= res <= 16_350,
{
    let stemmed = query_stem(token);
    let stemmed = stemmed.as_str();
    let parts = normalized_symbol_tokens(name);
    let for_name: i128 = if same_text(normalize_symbol_name(name).as_str(), token) {
        15_000
    } else if has_text(&parts, token) || has_text(&parts, stemmed) {
        6_000
    } else if is_mentioned(name, token, stemmed) {
        2_500
    } else {
        0
    };
    let for_source: i128 = if is_mentioned(source, token, stemmed) {
        900
    } else {
        0
    };
    let for_community: i128 = if is_mentioned(community, token, stemmed) {
        450
    } else {
        0
    };
    for_name + for_source + for_community
}

fn hint_matches(task: &str, name: &str) -> (res: bool)
    ensures
        res == is_hinted(task@, name@),
{
    let symbols = symbol_hints(task);
    let wanted = normalize_symbol_name(name);
    let mut i: usize = 0;
    while i < symbols.len()
        invariant
            i <= symbols@.len(),
            views(symbols@) == hints(task@),
            wanted@ == symbol_name(name@),
            forall|k: int|
                0 <= k < i ==> symbol_name(lower(#[trigger] hints(task@)[k])) != symbol_name(name@),
        decreases symbols@.len() - i,
    {
        assert(hints(task@)[i as int] == symbols@[i as int]@);
        let hint = normalize_symbol_name(to_lower(symbols[i].as_str()).as_str());
        if same_text(hint.as_str(), wanted.as_str()) {
            return true;
        }
        i += 1;
    }
    false
}

pub fn text_of(o: &Option<String>) -> (res: String)
    ensures
        res@ == text_or_empty(opt_view(*o)),
{
    match o {
        Some(s) => s.clone(),
        None => String::new(),
    }
}

pub fn score_node(task: &str, node: &ParsedNode) -> (res: i128)
    ensures
        res == score(task@, node@),
{
    let name = to_lower(node.name.as_str());
    let source = to_lower(text_of(&node.source).as_str());
    let community = to_lower(text_of(&node.community).as_str());
    let name = name.as_str();
    let source = source.as_str();
    let community = community.as_str();
    let tokens = meaningful_query_tokens(task);
    let ghost all = views(tokens@);
    let mut total: i128 = 0;
    let mut i: usize = 0;
    assert(all.take(0) =~= Seq::<Seq<char>>::empty());
    while i < tokens.len()
        invariant
            i <= tokens.len(),
            all == views(tokens@),
            total == tokens_points(all.take(i as int), name@, source@, community@),
            0 <= total <= 16_350 * i,
        decreases tokens@.len() - i,
    {
        assert(all.take(i + 1).drop_last() =~= all.take(i as int));
        assert(all.take(i + 1).last() == tokens@[i as int]@);
        total = total + score_token(tokens[i].as_str(), name, source, community);
        i += 1;
    }
    assert(all.take(i as int) =~= all);
    if hint_matches(task, name) {
        total = total + 25_000;
    }
    if graphify_call_intent(task) && (ends_with(name, "()") || contains(name, "::")) {
        total = total + 1_500;
    }
    if is_non_production_source(source) {
        total = total - 4_000;
    } else if ends_with(source, ".rs") {
        total = total + 700;
    }
    if is_generic_hub(name) {
        total = total - 5_000;
    }
    if node.source.is_some() {
        total = total + 100;
    }
    if node.location.is_some() {
        total = total + 20;
    }
    total - node.ordinal as i128
}

// ---------------------------------------------------------------------------
// Ranking
// ---------------------------------------------------------------------------

/// Where a node of this score goes in a ranked list: behind every node that
/// scores as much or more.
pub open spec fn slot(task: Seq<char>, list: Seq<NodeView>, points: int) -> int
    decreases list.len(),
{
    if list.len() == 0 || score(task, list.last()) >= points {
        list.len() as int
    } else {
        slot(task, list.drop_last(), points)
    }
}

/// The nodes by falling score. Nodes of one score keep their order.
pub open spec fn ranked(task: Seq<char>, nodes: Seq<NodeView>) -> Seq<NodeView>
    decreases nodes.len(),
{
    if nodes.len() == 0 {
        nodes
    } else {
        let before = ranked(task, nodes.drop_last());
        before.insert(slot(task, before, score(task, nodes.last())), nodes.last())
    }
}

pub proof fn lemma_slot(task: Seq<char>, list: Seq<NodeView>, points: int)
    ensures
        0 <= slot(task, list, points) <= list.len(),
        forall|k: int|
            slot(task, list, points) <= k < list.len() ==> score(task, #[trigger] list[k]) < points,
        slot(task, list, points) > 0 ==> score(task, list[slot(task, list, points) - 1]) >= points,
    decreases list.len(),
{
    if list.len() > 0 && score(task, list.last()) < points {
        lemma_slot(task, list.drop_last(), points);
        assert forall|k: int| slot(task, list, points) <= k < list.len() implies score(
            task,
            #[trigger] list[k],
        ) < points by {
            if k < list.len() - 1 {
                assert(list.drop_last()[k] == list[k]);
            }
        }
    }
}

/// The nodes by falling score, nodes of one score in their order.
pub fn rank_nodes(task: &str, nodes: &Vec<ParsedNode>) -> (res: Vec<ParsedNode>)
    ensures
        node_views(res@) == ranked(task@, node_views(nodes@)),
{
    let ghost all = node_views(nodes@);
    let mut res: Vec<ParsedNode> = Vec::new();
    let mut points: Vec<i128> = Vec::new();
    let mut i: usize = 0;
    assert(node_views(res@) =~= ranked(task@, all.take(0)));
    while i < nodes.len()
        invariant
            i <= nodes@.len(),
            all == node_views(nodes@),
            node_views(res@) == ranked(task@, all.take(i as int)),
            points@.len() == res@.len(),
            forall|k: int|
                0 <= k < res@.len() ==> points@[k] == score(task@, #[trigger] node_views(res@)[k]),
        decreases nodes@.len() - i,
    {
        let ghost before = node_views(res@);
        let node = nodes[i].clone();
        let ghost one = node@;
        let own = score_node(task, &node);
        let mut at: usize = res.len();
        assert(before.take(at as int) =~= before);
        while at > 0 && points[at - 1] < own
            invariant
                at <= res@.len(),
                before == node_views(res@),
                points@.len() == res@.len(),
                forall|k: int| 0 <= k < res@.len() ==> points@[k] == score(
                    task@,
                    #[trigger] before[k],
                ),
                slot(task@, before, own as int) == slot(
                    task@,
                    before.take(at as int),
                    own as int,
                ),
            decreases at,
        {
            assert(before.take(at as int).last() == before[at - 1]);
            assert(before.take(at as int).drop_last() =~= before.take(at - 1));
            at -= 1;
        }
        if at > 0 {
            assert(before.take(at as int).last() == before[at - 1]);
        }
        assert(at == slot(task@, before, own as int));
        res.insert(at, node);
        points.insert(at, own);
        proof {
            assert(node_views(res@) =~= before.insert(at as int, one));
            assert(all.take(i + 1).drop_last() =~= all.take(i as int));
            assert forall|k: int| 0 <= k < res@.len() implies points@[k] == score(
                task@,
                #[trigger] node_views(res@)[k],
            ) by {
                if k < at {
                    assert(before[k] == node_views(res@)[k]);
                } else if k > at {
                    assert(before[k - 1] == node_views(res@)[k]);
                }
            }
        }
        i += 1;
    }
    assert(all.take(i as int) =~= all);
    res
}

} // verus!
