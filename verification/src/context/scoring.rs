//! What a node's score is made of, and how the scores of tasks relate.

use vstd::prelude::*;

use crate::context::node::{is_hinted, score, text_or_empty, token_points, tokens_points, NodeView};
use crate::context::query::{hints, query_tokens, stem, symbol_name, symbol_parts};
use crate::context::query_laws::{
    counts, hints_at, is_divider, is_word, law_hints, law_hints_stay, law_single_words,
    law_texts_put_together, law_words_looked_for,
};
use crate::text::{
    byte_len_spec, has_infix, has_prefix, has_suffix, lower, match_at, trim_class_spec, CharClass,
};
use crate::text_laws::law_trimming_spares;

verus! {

// ---------------------------------------------------------------------------
// What a word adds
// ---------------------------------------------------------------------------

/// Whether a text mentions a word: it holds the word, or the word's stem where
/// that has four bytes at least.
pub open spec fn speaks_of(text: Seq<char>, word: Seq<char>) -> bool {
    has_infix(text, word) || byte_len_spec(stem(word)) >= 4 && has_infix(text, stem(word))
}

/// What a word adds for a node's name: most where it is the name, less where it
/// or its stem is a part of the name, least where the name mentions it.
pub open spec fn adds_for_name(word: Seq<char>, node: NodeView) -> int {
    let name = lower(node.name);
    if symbol_name(name) == word {
        15_000
    } else if symbol_parts(name).contains(word) || symbol_parts(name).contains(stem(word)) {
        6_000
    } else if speaks_of(name, word) {
        2_500
    } else {
        0
    }
}

/// What a word adds for where a node stands: for its source, and for its
/// community.
pub open spec fn adds_for_place(word: Seq<char>, node: NodeView) -> int {
    (if node.source is Some && speaks_of(lower(node.source->0), word) {
        900int
    } else {
        0int
    }) + (if node.community is Some && speaks_of(lower(node.community->0), word) {
        450int
    } else {
        0int
    })
}

/// What a word of the task adds to a node's score.
pub open spec fn adds(word: Seq<char>, node: NodeView) -> int {
    adds_for_name(word, node) + adds_for_place(word, node)
}

/// What a node's score is beside its words: what the task hints at, whether it
/// asks for callers of what can be called, where the node comes from, whether
/// too much leads through it, what is known of it, and how late it came.
pub open spec fn score_without_words(task: Seq<char>, node: NodeView) -> int {
    let name = lower(node.name);
    let source = lower(text_or_empty(node.source));
    let aside = has_infix(source, "/tests/"@) || has_infix(source, "_test."@) || has_infix(
        source,
        "_tests."@,
    ) || has_infix(source, "/test_"@) || has_infix(source, "/benches/"@) || has_infix(
        source,
        "benchmark"@,
    ) || has_prefix(source, "scripts/"@) || has_prefix(source, "docs/"@);
    let bare = trim_class_spec(name, CharClass::NonWord);
    let crossroads = bare == "app"@ || bare == "config"@ || bare == "main"@ || bare == "path"@
        || bare == "result"@ || bare == "session"@ || bare == "string"@ || bare == "vec"@;
    let hinted = exists|symbol: Seq<char>| #[trigger]
        hints_at(task, symbol) && symbol_name(lower(symbol)) == symbol_name(name);
    let callable = has_suffix(name, "()"@) || has_infix(name, "::"@);
    let asked = has_infix(lower(task), "call path"@) || has_infix(lower(task), "trace"@)
        || has_infix(lower(task), "caller"@);
    (if hinted {
        25_000int
    } else {
        0int
    }) + (if asked && callable {
        1_500int
    } else {
        0int
    }) + (if aside {
        -4_000int
    } else if has_suffix(source, ".rs"@) {
        700int
    } else {
        0int
    }) + (if crossroads {
        -5_000int
    } else {
        0int
    }) + (if node.source is Some {
        100int
    } else {
        0int
    }) + (if node.location is Some {
        20int
    } else {
        0int
    }) - node.ordinal
}

proof fn lemma_not_in_nothing(word: Seq<char>)
    requires
        word.len() > 0,
    ensures
        !has_infix(lower(Seq::<char>::empty()), word),
{
    let none = lower(Seq::<char>::empty());
    if has_infix(none, word) {
        let i = choose|i: int| match_at(none, word, i);
        assert(i + word.len() <= 0);
    }
}

proof fn lemma_adds(word: Seq<char>, node: NodeView)
    requires
        counts(word),
    ensures
        token_points(
            word,
            lower(node.name),
            lower(text_or_empty(node.source)),
            lower(text_or_empty(node.community)),
        ) == adds(word, node),
{
    if word.len() == 0 {
        assert(vstd::utf8::encode_utf8(word) =~= Seq::<u8>::empty());
    }
    lemma_not_in_nothing(word);
    if byte_len_spec(stem(word)) >= 4 {
        if stem(word).len() == 0 {
            assert(vstd::utf8::encode_utf8(stem(word)) =~= Seq::<u8>::empty());
        }
        lemma_not_in_nothing(stem(word));
    }
}

/// The sum of what these words add.
pub open spec fn all_add(words: Seq<Seq<char>>, node: NodeView) -> int {
    words.fold_left(0int, |sum: int, word: Seq<char>| sum + adds(word, node))
}

proof fn lemma_all_add_last(words: Seq<Seq<char>>, node: NodeView)
    requires
        words.len() > 0,
    ensures
        all_add(words, node) == all_add(words.drop_last(), node) + adds(words.last(), node),
{
    let f = |sum: int, word: Seq<char>| sum + adds(word, node);
    reveal_with_fuel(Seq::fold_left, 2);
    assert(words.fold_left(0int, f) == f(words.drop_last().fold_left(0int, f), words.last()));
}

proof fn lemma_sum(words: Seq<Seq<char>>, node: NodeView)
    requires
        forall|k: int| 0 <= k < words.len() ==> counts(#[trigger] words[k]),
    ensures
        tokens_points(
            words,
            lower(node.name),
            lower(text_or_empty(node.source)),
            lower(text_or_empty(node.community)),
        ) == all_add(words, node),
    decreases words.len(),
{
    if words.len() > 0 {
        let front = words.drop_last();
        assert forall|k: int| 0 <= k < front.len() implies counts(#[trigger] front[k]) by {
            assert(front[k] == words[k]);
        }
        lemma_sum(front, node);
        assert(counts(words[words.len() - 1]));
        lemma_adds(words.last(), node);
        lemma_all_add_last(words, node);
    }
}

proof fn lemma_hinted(task: Seq<char>, name: Seq<char>)
    ensures
        is_hinted(task, name) <==> exists|symbol: Seq<char>| #[trigger]
            hints_at(task, symbol) && symbol_name(lower(symbol)) == symbol_name(name),
{
    let all = hints(task);
    if is_hinted(task, name) {
        let i = choose|i: int|
            0 <= i < all.len() && symbol_name(lower(#[trigger] all[i])) == symbol_name(name);
        law_hints(task, all[i]);
        assert(all.contains(all[i]));
        assert(hints_at(task, all[i]));
    }
    if exists|symbol: Seq<char>| #[trigger]
        hints_at(task, symbol) && symbol_name(lower(symbol)) == symbol_name(name) {
        let symbol = choose|symbol: Seq<char>| #[trigger]
            hints_at(task, symbol) && symbol_name(lower(symbol)) == symbol_name(name);
        law_hints(task, symbol);
        let i = choose|i: int| 0 <= i < all.len() && all[i] == symbol;
        assert(symbol_name(lower(all[i])) == symbol_name(name));
    }
}

/// A node's score is what each word of the task that counts adds, put together,
/// and what the node has beside its words.
pub proof fn law_scores_add_up(task: Seq<char>, node: NodeView)
    ensures
        score(task, node) == all_add(query_tokens(task), node) + score_without_words(task, node),
{
    law_words_looked_for(task);
    let words = query_tokens(task);
    assert forall|k: int| 0 <= k < words.len() implies counts(#[trigger] words[k]) by {
        assert(words.contains(words[k]));
    }
    lemma_sum(words, node);
    lemma_hinted(task, lower(node.name));
}

// ---------------------------------------------------------------------------
// One word more
// ---------------------------------------------------------------------------

proof fn lemma_taken_out(words: Seq<Seq<char>>, node: NodeView, i: int)
    requires
        0 <= i < words.len(),
    ensures
        all_add(words, node) == all_add(words.remove(i), node) + adds(words[i], node),
    decreases words.len(),
{
    lemma_all_add_last(words, node);
    if i == words.len() - 1 {
        assert(words.remove(i) =~= words.drop_last());
    } else {
        let front = words.drop_last();
        lemma_taken_out(front, node, i);
        let rest = words.remove(i);
        assert(rest.drop_last() =~= front.remove(i));
        assert(rest.last() == words.last());
        lemma_all_add_last(rest, node);
    }
}

/// What words add together does not depend on their order.
pub proof fn law_the_order_of_words_is_nothing(
    a: Seq<Seq<char>>,
    b: Seq<Seq<char>>,
    node: NodeView,
)
    requires
        a.no_duplicates(),
        b.no_duplicates(),
        forall|w: Seq<char>| a.contains(w) <==> #[trigger] b.contains(w),
    ensures
        all_add(a, node) == all_add(b, node),
    decreases a.len(),
{
    if a.len() == 0 {
        if b.len() > 0 {
            assert(b.contains(b[0]));
        }
        assert(a =~= b);
    } else {
        let w = a.last();
        assert(a[a.len() - 1] == w);
        assert(a.contains(w));
        assert(b.contains(w));
        let i = choose|i: int| 0 <= i < b.len() && b[i] == w;
        let front = a.drop_last();
        let rest = b.remove(i);
        assert(front.no_duplicates());
        assert(rest.no_duplicates()) by {
            assert forall|p: int, q: int|
                0 <= p < rest.len() && 0 <= q < rest.len() && p != q implies rest[p] != rest[q] by {
                let x = if p < i {
                    p
                } else {
                    p + 1
                };
                let y = if q < i {
                    q
                } else {
                    q + 1
                };
                assert(rest[p] == b[x] && rest[q] == b[y]);
            }
        }
        assert forall|x: Seq<char>| front.contains(x) <==> #[trigger] rest.contains(x) by {
            if front.contains(x) {
                let k = choose|k: int| 0 <= k < front.len() && front[k] == x;
                assert(a[k] == x);
                assert(a.contains(x));
                assert(b.contains(x));
                let j = choose|j: int| 0 <= j < b.len() && b[j] == x;
                assert(x != w);
                if j < i {
                    assert(rest[j] == x);
                } else {
                    assert(rest[j - 1] == x);
                }
            }
            if rest.contains(x) {
                let k = choose|k: int| 0 <= k < rest.len() && rest[k] == x;
                let j = if k < i {
                    k
                } else {
                    k + 1
                };
                assert(b[j] == x);
                assert(b.contains(x));
                assert(a.contains(x));
                let m = choose|m: int| 0 <= m < a.len() && a[m] == x;
                assert(x != w);
                assert(front[m] == x);
            }
        }
        law_the_order_of_words_is_nothing(front, rest, node);
        lemma_all_add_last(a, node);
        lemma_taken_out(b, node, i);
    }
}

/// A word that counts and was not in the task before adds what it adds for the
/// node, wherever it stands, beside what all other words add.
pub proof fn law_new_words_add(fewer: Seq<char>, more: Seq<char>, word: Seq<char>, node: NodeView)
    requires
        !query_tokens(fewer).contains(word),
        forall|w: Seq<char>| #[trigger]
            query_tokens(more).contains(w) <==> query_tokens(fewer).contains(w) || w == word,
    ensures
        all_add(query_tokens(more), node) == all_add(query_tokens(fewer), node) + adds(word, node),
        score(more, node) - score_without_words(more, node) == score(fewer, node)
            - score_without_words(fewer, node) + adds(word, node),
{
    law_words_looked_for(fewer);
    law_words_looked_for(more);
    let a = query_tokens(more);
    let b = query_tokens(fewer).push(word);
    assert(b.no_duplicates()) by {
        assert forall|p: int, q: int|
            0 <= p < b.len() && 0 <= q < b.len() && p != q implies b[p] != b[q] by {
            let all = query_tokens(fewer);
            if p < all.len() {
                assert(all.contains(all[p]));
            }
            if q < all.len() {
                assert(all.contains(all[q]));
            }
        }
    }
    assert forall|w: Seq<char>| a.contains(w) <==> #[trigger] b.contains(w) by {
        let all = query_tokens(fewer);
        if b.contains(w) {
            let k = choose|k: int| 0 <= k < b.len() && b[k] == w;
            if k < all.len() {
                assert(all[k] == w);
                assert(all.contains(w));
            }
        }
        if all.contains(w) {
            let k = choose|k: int| 0 <= k < all.len() && all[k] == w;
            assert(b[k] == w);
        }
        if w == word {
            assert(b[all.len() as int] == w);
        }
        assert(query_tokens(more).contains(w) <==> query_tokens(fewer).contains(w) || w == word);
    }
    law_the_order_of_words_is_nothing(a, b, node);
    assert(b.drop_last() =~= query_tokens(fewer));
    lemma_all_add_last(b, node);
    law_scores_add_up(fewer, node);
    law_scores_add_up(more, node);
}

proof fn lemma_wider(before: Seq<char>, task: Seq<char>, after: Seq<char>, node: NodeView)
    ensures
        score_without_words(before + task + after, node) >= score_without_words(task, node),
{
    let whole = before + task + after;
    law_hints_stay(before, task, after);
    lemma_hinted(task, lower(node.name));
    lemma_hinted(whole, lower(node.name));
    assert forall|symbol: Seq<char>| #[trigger] hints_at(task, symbol) implies hints_at(
        whole,
        symbol,
    ) by {
        law_hints(task, symbol);
        law_hints(whole, symbol);
        assert(hints(task).contains(symbol));
    }
}

/// A word that is written behind a task, or before it, never lowers a node's
/// score. A new word that counts raises it by what it adds at least.
pub proof fn law_more_words_score_no_less(
    task: Seq<char>,
    divider: char,
    word: Seq<char>,
    node: NodeView,
)
    requires
        is_divider(divider),
        is_word(word),
        counts(word),
    ensures
        score(task.push(divider) + word, node) >= score(task, node),
        score(word.push(divider) + task, node) >= score(task, node),
        !query_tokens(task).contains(word) ==> {
            &&& score(task.push(divider) + word, node) >= score(task, node) + adds(word, node)
            &&& score(word.push(divider) + task, node) >= score(task, node) + adds(word, node)
        },
{
    let behind = task.push(divider) + word;
    let ahead = word.push(divider) + task;
    law_texts_put_together(task, divider, word);
    law_texts_put_together(word, divider, task);
    law_single_words(word);
    assert(Seq::<char>::empty() + task + seq![divider] + word =~= behind);
    assert(Seq::<char>::empty() + task + (seq![divider] + word) =~= behind);
    lemma_wider(Seq::empty(), task, seq![divider] + word, node);
    assert(word.push(divider) + task + Seq::<char>::empty() =~= ahead);
    lemma_wider(word.push(divider), task, Seq::empty(), node);
    lemma_word_or_not(task, behind, word, node);
    lemma_word_or_not(task, ahead, word, node);
}

proof fn lemma_word_or_not(fewer: Seq<char>, more: Seq<char>, word: Seq<char>, node: NodeView)
    requires
        forall|w: Seq<char>| #[trigger]
            query_tokens(more).contains(w) <==> query_tokens(fewer).contains(w) || w == word,
        score_without_words(more, node) >= score_without_words(fewer, node),
    ensures
        score(more, node) >= score(fewer, node),
        !query_tokens(fewer).contains(word) ==> score(more, node) >= score(fewer, node) + adds(
            word,
            node,
        ),
{
    law_scores_add_up(fewer, node);
    law_scores_add_up(more, node);
    law_words_looked_for(fewer);
    law_words_looked_for(more);
    if query_tokens(fewer).contains(word) {
        assert forall|w: Seq<char>|
            query_tokens(more).contains(w) <==> #[trigger] query_tokens(fewer).contains(w) by {
            assert(query_tokens(more).contains(w) <==> query_tokens(fewer).contains(w) || w
                == word);
        }
        law_the_order_of_words_is_nothing(query_tokens(more), query_tokens(fewer), node);
    } else {
        law_new_words_add(fewer, more, word, node);
    }
}

pub(crate) proof fn lemma_same_name(word: Seq<char>)
    requires
        is_word(word),
        word.last() != ')',
    ensures
        symbol_name(word) == word,
{
    reveal_strlit("()");
    assert(!CharClass::NonWord.has(word[0]));
    assert(!CharClass::NonWord.has(word[word.len() - 1]));
    law_trimming_spares(word, CharClass::NonWord);
    if has_suffix(word, "()"@) {
        let two = word.subrange(word.len() - 2, word.len() as int);
        assert(two == "()"@);
        assert(two[1] == word[word.len() - 1]);
    }
}

/// A node whose name is a word of the task, in any case of letters, scores at
/// least 15000 more than for the task without that word, whether the word is
/// written before or behind all the others.
pub proof fn law_named_nodes_stand_out(
    task: Seq<char>,
    divider: char,
    word: Seq<char>,
    node: NodeView,
)
    requires
        is_divider(divider),
        is_word(word),
        word.last() != ')',
        counts(word),
        !query_tokens(task).contains(word),
        lower(node.name) == word,
    ensures
        score(task.push(divider) + word, node) >= score(task, node) + 15_000,
        score(word.push(divider) + task, node) >= score(task, node) + 15_000,
{
    law_more_words_score_no_less(task, divider, word, node);
    lemma_same_name(word);
}

/// A word in the middle of a task counts as one at its end does: beside the
/// hints and the interest in callers that the wording gives, a node that is
/// named by the word scores at least 15000 more than without it.
pub proof fn law_words_count_in_the_middle(
    before: Seq<char>,
    divider: char,
    word: Seq<char>,
    after: Seq<char>,
    node: NodeView,
)
    requires
        is_divider(divider),
        is_word(word),
        counts(word),
        !query_tokens(before).contains(word),
        !query_tokens(after).contains(word),
    ensures
        ({
            let more = before.push(divider) + (word.push(divider) + after);
            let fewer = before.push(divider) + after;
            &&& score(more, node) - score_without_words(more, node) == score(fewer, node)
                - score_without_words(fewer, node) + adds(word, node)
            &&& lower(node.name) == word && word.last() != ')' ==> score(more, node)
                - score_without_words(more, node) >= score(fewer, node) - score_without_words(
                fewer,
                node,
            ) + 15_000
        }),
{
    let more = before.push(divider) + (word.push(divider) + after);
    let fewer = before.push(divider) + after;
    law_texts_put_together(before, divider, after);
    law_texts_put_together(word, divider, after);
    law_texts_put_together(before, divider, word.push(divider) + after);
    law_single_words(word);
    assert forall|w: Seq<char>| #[trigger]
        query_tokens(more).contains(w) <==> query_tokens(fewer).contains(w) || w == word by {
        assert(query_tokens(word.push(divider) + after).contains(w) <==> query_tokens(
            word,
        ).contains(w) || query_tokens(after).contains(w));
        assert(query_tokens(fewer).contains(w) <==> query_tokens(before).contains(w)
            || query_tokens(after).contains(w));
    }
    law_new_words_add(fewer, more, word, node);
    if lower(node.name) == word && word.last() != ')' {
        lemma_same_name(word);
    }
}

} // verus!
