//! How a package compares with the answer it was made from, and with what it
//! was expected to hold.

use vstd::prelude::*;

use crate::context::package::{
    compile_graphify_context, estimate_tokens, package, package_json, tokens_of, CompiledContext,
    PackageView,
};
use crate::context::query::{normalize_symbol_name, symbol_name};
use crate::text::{
    byte_len, byte_len_spec, has_prefix, lines, lines_spec, lower, same_text, starts_with,
    to_lower, views,
};

verus! {

/// How many of a package's first items are judged.
pub const JUDGED_ITEMS: usize = 5;

/// A symbol's name as it is compared.
pub open spec fn plain_name(name: Seq<char>) -> Seq<char> {
    lower(symbol_name(name))
}

pub fn normalize(name: &str) -> (res: String)
    ensures
        res@ == plain_name(name@),
{
    to_lower(normalize_symbol_name(name).as_str())
}

/// Whether one of the names is this one.
pub open spec fn is_named(names: Seq<Seq<char>>, name: Seq<char>) -> bool {
    exists|k: int| 0 <= k < names.len() && plain_name(#[trigger] names[k]) == plain_name(name)
}

fn has_name(names: &Vec<String>, name: &str) -> (res: bool)
    ensures
        res == is_named(views(names@), name@),
{
    let wanted = normalize(name);
    let mut i: usize = 0;
    while i < names.len()
        invariant
            i <= names@.len(),
            wanted@ == plain_name(name@),
            forall|k: int|
                0 <= k < i ==> plain_name(#[trigger] views(names@)[k]) != plain_name(name@),
        decreases names@.len() - i,
    {
        let one = normalize(names[i].as_str());
        assert(views(names@)[i as int] == names@[i as int]@);
        if same_text(one.as_str(), wanted.as_str()) {
            return true;
        }
        i += 1;
    }
    false
}

/// How many of the expected names were found.
pub open spec fn hit_count(expected: Seq<Seq<char>>, found: Seq<Seq<char>>) -> nat
    decreases expected.len(),
{
    if expected.len() == 0 {
        0
    } else {
        hit_count(expected.drop_last(), found) + if is_named(found, expected.last()) {
            1nat
        } else {
            0nat
        }
    }
}

/// The rank of the first name that was expected, counted from one.
pub open spec fn first_rank_spec(expected: Seq<Seq<char>>, found: Seq<Seq<char>>) -> Option<nat>
    decreases found.len(),
{
    if found.len() == 0 {
        None
    } else {
        match first_rank_spec(expected, found.drop_last()) {
            Some(rank) => Some(rank),
            None => if is_named(expected, found.last()) {
                Some(found.len())
            } else {
                None
            },
        }
    }
}

/// The names of a package's first items.
pub open spec fn judged_names(p: PackageView) -> Seq<Seq<char>> {
    Seq::new(
        if p.items.len() < JUDGED_ITEMS {
            p.items.len()
        } else {
            JUDGED_ITEMS as nat
        },
        |i: int| p.items[i].name,
    )
}

/// How well a package holds what was expected of it.
#[derive(Debug)]
pub struct Judgement {
    pub top: Vec<String>,
    pub hits: usize,
    pub first_rank: Option<usize>,
    pub irrelevant: usize,
}

fn top_names(compiled: &CompiledContext) -> (res: Vec<String>)
    ensures
        views(res@) == judged_names(compiled@),
{
    let ghost all = judged_names(compiled@);
    let mut res: Vec<String> = Vec::new();
    let mut i: usize = 0;
    while i < compiled.items.len() && i < JUDGED_ITEMS
        invariant
            i <= all.len(),
            all == judged_names(compiled@),
            views(res@) =~= all.take(i as int),
        decreases compiled.items@.len() - i,
    {
        let ghost done = views(res@);
        assert(all[i as int] == compiled.items@[i as int].name@);
        res.push(compiled.items[i].name.clone());
        assert(views(res@) =~= done.push(all[i as int]));
        i += 1;
    }
    assert(all.take(i as int) =~= all);
    res
}

fn count_hits(expected: &Vec<String>, found: &Vec<String>) -> (res: usize)
    ensures
        res == hit_count(views(expected@), views(found@)),
{
    let ghost all = views(expected@);
    let mut hits: usize = 0;
    let mut i: usize = 0;
    while i < expected.len()
        invariant
            hits <= i <= expected@.len(),
            all == views(expected@),
            hits == hit_count(all.take(i as int), views(found@)),
        decreases expected@.len() - i,
    {
        assert(all.take(i + 1).drop_last() =~= all.take(i as int));
        assert(all.take(i + 1).last() == expected@[i as int]@);
        if has_name(found, expected[i].as_str()) {
            hits += 1;
        }
        i += 1;
    }
    assert(all.take(i as int) =~= all);
    hits
}

pub open spec fn rank_view(rank: Option<usize>) -> Option<nat> {
    match rank {
        Some(rank) => Some(rank as nat),
        None => None,
    }
}

fn find_first(expected: &Vec<String>, found: &Vec<String>) -> (res: Option<usize>)
    ensures
        rank_view(res) == first_rank_spec(views(expected@), views(found@)),
{
    let ghost all = views(found@);
    let mut first: Option<usize> = None;
    let mut i: usize = 0;
    while i < found.len()
        invariant
            i <= found@.len(),
            all == views(found@),
            rank_view(first) == first_rank_spec(views(expected@), all.take(i as int)),
        decreases found@.len() - i,
    {
        assert(all.take(i + 1).drop_last() =~= all.take(i as int));
        assert(all.take(i + 1).last() == found@[i as int]@);
        if first.is_none() && has_name(expected, found[i].as_str()) {
            first = Some(i + 1);
        }
        i += 1;
    }
    assert(all.take(i as int) =~= all);
    first
}

/// Judges the first items of a package by the names that were expected.
pub fn judge(expected: &Vec<String>, compiled: &CompiledContext) -> (res: Judgement)
    ensures
        ({
            let top = judged_names(compiled@);
            let hits = hit_count(views(expected@), top);
            &&& views(res.top@) == top
            &&& res.hits == hits
            &&& rank_view(res.first_rank) == first_rank_spec(views(expected@), top)
            &&& res.irrelevant == if hits < JUDGED_ITEMS {
                JUDGED_ITEMS - hits
            } else {
                0
            }
        }),
{
    let top = top_names(compiled);
    let hits = count_hits(expected, &top);
    let first_rank = find_first(expected, &top);
    Judgement { top, hits, first_rank, irrelevant: JUDGED_ITEMS.saturating_sub(hits) }
}

/// How many of the lines name a node.
pub open spec fn node_lines(all: Seq<Seq<char>>) -> nat
    decreases all.len(),
{
    if all.len() == 0 {
        0
    } else {
        node_lines(all.drop_last()) + if has_prefix(all.last(), "NODE "@) {
            1nat
        } else {
            0nat
        }
    }
}

/// How many lines of a code graph's answer name a node.
pub fn count_candidates(raw: &str) -> (res: usize)
    ensures
        res == node_lines(lines_spec(raw@)),
{
    let list = lines(raw);
    let ghost all = views(list@);
    let mut count: usize = 0;
    let mut i: usize = 0;
    while i < list.len()
        invariant
            count <= i <= list@.len(),
            all == views(list@),
            count == node_lines(all.take(i as int)),
        decreases list@.len() - i,
    {
        assert(all.take(i + 1).drop_last() =~= all.take(i as int));
        assert(all.take(i + 1).last() == list@[i as int]@);
        if starts_with(list[i].as_str(), "NODE ") {
            count += 1;
        }
        i += 1;
    }
    assert(all.take(i as int) =~= all);
    count
}

/// The sizes of a code graph's answer and of the package made from it.
#[derive(Debug)]
pub struct Comparison {
    pub raw_bytes: usize,
    pub raw_tokens: usize,
    pub candidates: usize,
    pub compact_bytes: usize,
    pub compact_tokens: usize,
    pub compiled: CompiledContext,
}

/// Compiles an answer within the budget, or within the answer's own size where
/// that is smaller, and compares the two.
pub fn compare_with_raw(task: &str, raw: &str, budget: usize, max_items: usize) -> (res: Comparison)
    ensures
        ({
            let allowed = if (budget as nat) < tokens_of(raw@) {
                budget as nat
            } else {
                tokens_of(raw@)
            };
            let made = package(task@, raw@, allowed, max_items as nat);
            &&& res.raw_bytes == byte_len_spec(raw@)
            &&& res.raw_tokens == tokens_of(raw@)
            &&& res.candidates == node_lines(lines_spec(raw@))
            &&& res.compiled@ == made
            &&& res.compact_bytes == byte_len_spec(package_json(made))
            &&& res.compact_tokens == tokens_of(package_json(made))
        }),
{
    let raw_tokens = estimate_tokens(raw);
    let allowed = if budget < raw_tokens {
        budget
    } else {
        raw_tokens
    };
    let compiled = compile_graphify_context(task, raw, allowed, max_items);
    let json = compiled.to_prompt_json();
    Comparison {
        raw_bytes: byte_len(raw),
        raw_tokens,
        candidates: count_candidates(raw),
        compact_bytes: byte_len(json.as_str()),
        compact_tokens: estimate_tokens(json.as_str()),
        compiled,
    }
}

proof fn lemma_hit_count(expected: Seq<Seq<char>>, found: Seq<Seq<char>>)
    ensures
        hit_count(expected, found) <= expected.len(),
        hit_count(expected, found) > 0 <==> exists|k: int|
            0 <= k < expected.len() && is_named(found, #[trigger] expected[k]),
    decreases expected.len(),
{
    if expected.len() > 0 {
        let rest = expected.drop_last();
        lemma_hit_count(rest, found);
        if exists|k: int| 0 <= k < rest.len() && is_named(found, #[trigger] rest[k]) {
            let k = choose|k: int| 0 <= k < rest.len() && is_named(found, #[trigger] rest[k]);
            assert(expected[k] == rest[k]);
        }
        if is_named(found, expected.last()) {
            assert(is_named(found, expected[expected.len() - 1]));
        }
        if exists|k: int| 0 <= k < expected.len() && is_named(found, #[trigger] expected[k]) {
            let k = choose|k: int|
                0 <= k < expected.len() && is_named(found, #[trigger] expected[k]);
            if k < rest.len() {
                assert(rest[k] == expected[k]);
            }
        }
    }
}

proof fn lemma_first_rank(expected: Seq<Seq<char>>, found: Seq<Seq<char>>)
    ensures
        first_rank_spec(expected, found) is Some <==> exists|k: int|
            0 <= k < found.len() && is_named(expected, #[trigger] found[k]),
        first_rank_spec(expected, found) matches Some(rank) ==> 1 <= rank <= found.len(),
    decreases found.len(),
{
    if found.len() > 0 {
        let rest = found.drop_last();
        lemma_first_rank(expected, rest);
        if exists|k: int| 0 <= k < rest.len() && is_named(expected, #[trigger] rest[k]) {
            let k = choose|k: int| 0 <= k < rest.len() && is_named(expected, #[trigger] rest[k]);
            assert(found[k] == rest[k]);
        }
        if is_named(expected, found.last()) {
            assert(is_named(expected, found[found.len() - 1]));
        }
        if exists|k: int| 0 <= k < found.len() && is_named(expected, #[trigger] found[k]) {
            let k = choose|k: int| 0 <= k < found.len() && is_named(expected, #[trigger] found[k]);
            if k < rest.len() {
                assert(rest[k] == found[k]);
            }
        }
    }
}

/// There is a first rank exactly where there is a hit, and no more hits than
/// names were expected.
pub proof fn law_hits_have_a_rank(expected: Seq<Seq<char>>, found: Seq<Seq<char>>)
    ensures
        first_rank_spec(expected, found) is Some <==> hit_count(expected, found) > 0,
        hit_count(expected, found) <= expected.len(),
        first_rank_spec(expected, found) matches Some(rank) ==> 1 <= rank <= found.len(),
{
    lemma_hit_count(expected, found);
    lemma_first_rank(expected, found);
    if hit_count(expected, found) > 0 {
        let e = choose|e: int| 0 <= e < expected.len() && is_named(found, #[trigger] expected[e]);
        let k = choose|k: int|
            0 <= k < found.len() && plain_name(#[trigger] found[k]) == plain_name(expected[e]);
        assert(is_named(expected, found[k]));
    }
    if first_rank_spec(expected, found) is Some {
        let k = choose|k: int| 0 <= k < found.len() && is_named(expected, #[trigger] found[k]);
        let e = choose|e: int|
            0 <= e < expected.len() && plain_name(#[trigger] expected[e]) == plain_name(found[k]);
        assert(is_named(found, expected[e]));
    }
}

} // verus!
