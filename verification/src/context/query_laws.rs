//! What of a task is looked for, said of the task's own words.

use vstd::prelude::*;

use crate::context::query::{
    call_intent, concepts, groups, has_ending, hinted, hints, is_meaningful, is_stopword_spec,
    meaningful, query_tokens, query_variants, stem, stems, symbol_name, symbol_parts,
    without_ending,
};
use crate::text::{
    byte_len_spec, fields_spec, has_infix, has_prefix, has_suffix, join_spec, lemma_byte_len_add,
    lemma_distinct, lower, lower_char, match_at, nonempty_spec, trim_class_spec, trim_end_text_spec,
    trim_spec, unicode_alphanumeric, CharClass,
};
use crate::text_laws::{
    law_dividers_divide, law_fields_are_parts, law_parts_of_parts, law_trimmed, law_trimming_spares,
    law_undivided_texts, lemma_nonempty,
};

verus! {

// ---------------------------------------------------------------------------
// Words
// ---------------------------------------------------------------------------

/// The words that say nothing of what a task is about.
pub open spec fn stopwords() -> Seq<Seq<char>> {
    seq![
        "the"@,
        "this"@,
        "that"@,
        "with"@,
        "from"@,
        "into"@,
        "only"@,
        "exact"@,
        "existing"@,
        "find"@,
        "show"@,
        "return"@,
        "repository"@,
        "production"@,
        "rust"@,
        "function"@,
        "functions"@,
        "call"@,
        "path"@,
        "trace"@,
        "through"@,
        "using"@,
        "used"@,
        "context"@,
    ]
}

/// Whether a character divides words and is the same in small letters.
pub open spec fn is_divider(c: char) -> bool {
    !unicode_alphanumeric(c) && c != '_' && lower_char(c) == c
}

/// Whether a text is a word in small letters: alphanumeric characters and
/// underscores alone.
pub open spec fn is_word(w: Seq<char>) -> bool {
    &&& w.len() > 0
    &&& forall|k: int|
        0 <= k < w.len() ==> (unicode_alphanumeric(#[trigger] w[k]) || w[k] == '_') && lower_char(
            w[k],
        ) == w[k]
}

/// Whether a word counts: it has three bytes at least and is no stopword.
pub open spec fn counts(w: Seq<char>) -> bool {
    byte_len_spec(w) >= 3 && !stopwords().contains(w)
}

/// The words that count are those of three bytes at least that are no
/// stopwords.
pub proof fn law_which_words_count(w: Seq<char>)
    ensures
        is_meaningful(w) <==> counts(w),
{
    let all = stopwords();
    assert(all[0] == "the"@);
    assert(all[1] == "this"@);
    assert(all[2] == "that"@);
    assert(all[3] == "with"@);
    assert(all[4] == "from"@);
    assert(all[5] == "into"@);
    assert(all[6] == "only"@);
    assert(all[7] == "exact"@);
    assert(all[8] == "existing"@);
    assert(all[9] == "find"@);
    assert(all[10] == "show"@);
    assert(all[11] == "return"@);
    assert(all[12] == "repository"@);
    assert(all[13] == "production"@);
    assert(all[14] == "rust"@);
    assert(all[15] == "function"@);
    assert(all[16] == "functions"@);
    assert(all[17] == "call"@);
    assert(all[18] == "path"@);
    assert(all[19] == "trace"@);
    assert(all[20] == "through"@);
    assert(all[21] == "using"@);
    assert(all[22] == "used"@);
    assert(all[23] == "context"@);
    if is_stopword_spec(w) {
        assert(all.contains(w));
    }
    if all.contains(w) {
        let k = choose|k: int| 0 <= k < all.len() && all[k] == w;
        assert(0 <= k < 24);
        assert(is_stopword_spec(w));
    }
}

proof fn lemma_meaningful(words: Seq<Seq<char>>)
    ensures
        forall|w: Seq<char>|
            #[trigger] meaningful(words).contains(w) <==> words.contains(w) && is_meaningful(w),
    decreases words.len(),
{
    if words.len() > 0 {
        let front = words.drop_last();
        lemma_meaningful(front);
        let before = meaningful(front);
        let after = meaningful(words);
        assert forall|w: Seq<char>|
            #[trigger] after.contains(w) <==> words.contains(w) && is_meaningful(w) by {
            if after.contains(w) {
                let k = choose|k: int| 0 <= k < after.len() && after[k] == w;
                if k < before.len() {
                    assert(before[k] == w);
                    assert(before.contains(w));
                    let j = choose|j: int| 0 <= j < front.len() && front[j] == w;
                    assert(front.contains(w));
                    assert(words[j] == w);
                } else {
                    assert(words[words.len() - 1] == w);
                }
            }
            if words.contains(w) && is_meaningful(w) {
                let j = choose|j: int| 0 <= j < words.len() && words[j] == w;
                if j < front.len() {
                    assert(front[j] == w);
                    assert(front.contains(w));
                    assert(before.contains(w));
                    let k = choose|k: int| 0 <= k < before.len() && before[k] == w;
                    assert(after[k] == w);
                } else {
                    assert(after[before.len() as int] == w);
                }
            }
        }
    }
}

/// What is looked for of a task is each of its words that count, in small
/// letters and once, wherever it stands.
pub proof fn law_words_looked_for(task: Seq<char>)
    ensures
        query_tokens(task).no_duplicates(),
        forall|w: Seq<char>| #[trigger]
            query_tokens(task).contains(w) <==> counts(w) && fields_spec(
                lower(task),
                CharClass::NonWord,
            ).contains(w),
{
    let all = fields_spec(lower(task), CharClass::NonWord);
    lemma_meaningful(all);
    lemma_distinct(meaningful(all));
    assert forall|w: Seq<char>| #[trigger]
        query_tokens(task).contains(w) <==> counts(w) && all.contains(w) by {
        law_which_words_count(w);
        assert(meaningful(all).contains(w) <==> all.contains(w) && is_meaningful(w));
    }
}

/// The words of two texts with a divider between them are those of both.
pub proof fn law_texts_put_together(a: Seq<char>, divider: char, b: Seq<char>)
    requires
        is_divider(divider),
    ensures
        forall|w: Seq<char>| #[trigger]
            query_tokens(a.push(divider) + b).contains(w) <==> query_tokens(a).contains(w)
                || query_tokens(b).contains(w),
{
    let class = CharClass::NonWord;
    let whole = a.push(divider) + b;
    assert(lower(whole) =~= lower(a).push(divider) + lower(b));
    law_dividers_divide(lower(a), divider, lower(b), class);
    law_words_looked_for(a);
    law_words_looked_for(b);
    law_words_looked_for(whole);
    let x = fields_spec(lower(a), class);
    let y = fields_spec(lower(b), class);
    let z = fields_spec(lower(whole), class);
    assert forall|w: Seq<char>| #[trigger]
        query_tokens(whole).contains(w) <==> query_tokens(a).contains(w) || query_tokens(
            b,
        ).contains(w) by {
        if z.contains(w) {
            let k = choose|k: int| 0 <= k < z.len() && z[k] == w;
            if k < x.len() {
                assert(x[k] == w);
            } else {
                assert(y[k - x.len()] == w);
            }
        }
        if x.contains(w) {
            let k = choose|k: int| 0 <= k < x.len() && x[k] == w;
            assert(z[k] == w);
        }
        if y.contains(w) {
            let k = choose|k: int| 0 <= k < y.len() && y[k] == w;
            assert(z[k + x.len()] == w);
        }
    }
}

/// A single word that counts is all that is looked for.
pub proof fn law_single_words(w: Seq<char>)
    requires
        is_word(w),
        counts(w),
    ensures
        forall|x: Seq<char>| #[trigger] query_tokens(w).contains(x) <==> x == w,
{
    assert forall|k: int| 0 <= k < w.len() implies !CharClass::NonWord.has(#[trigger] w[k]) by {}
    assert(lower(w) =~= w);
    law_undivided_texts(w, CharClass::NonWord);
    law_words_looked_for(w);
    assert(seq![w][0] == w);
    assert forall|x: Seq<char>| #[trigger] query_tokens(w).contains(x) <==> x == w by {
        assert(seq![w].contains(x) <==> x == w);
    }
}

// ---------------------------------------------------------------------------
// Stems
// ---------------------------------------------------------------------------

/// The endings that are taken off a word, the first that fits.
pub open spec fn endings() -> Seq<Seq<char>> {
    seq!["ization"@, "ation"@, "ment"@, "ing"@, "ion"@, "ed"@, "s"@]
}

/// Whether a word ends so, with more than four bytes before.
pub open spec fn ends_so(word: Seq<char>, ending: Seq<char>) -> bool {
    exists|root: Seq<char>|
        #![trigger byte_len_spec(root)]
        word == root + ending && byte_len_spec(root) > 4
}

proof fn lemma_ends_so(word: Seq<char>, ending: Seq<char>)
    ensures
        has_ending(word, ending) <==> ends_so(word, ending),
        has_ending(word, ending) ==> without_ending(word, ending) + ending == word,
{
    if has_ending(word, ending) {
        let root = without_ending(word, ending);
        assert(word.subrange(word.len() - ending.len(), word.len() as int) == ending);
        assert(root + ending =~= word);
        lemma_byte_len_add(root, ending);
        assert(byte_len_spec(root) > 4);
    }
    if ends_so(word, ending) {
        let root = choose|root: Seq<char>|
            #![trigger byte_len_spec(root)]
            word == root + ending && byte_len_spec(root) > 4;
        lemma_byte_len_add(root, ending);
        assert(word.subrange(word.len() - ending.len(), word.len() as int) =~= ending);
    }
}

/// A stem is the word without the first ending that fits, and the word itself
/// where none does.
pub proof fn law_stems(word: Seq<char>)
    ensures
        forall|k: int|
            0 <= k < endings().len() && ends_so(word, #[trigger] endings()[k]) && (forall|j: int|
                0 <= j < k ==> !ends_so(word, #[trigger] endings()[j])) ==> stem(word)
                + endings()[k] == word,
        (forall|k: int| 0 <= k < endings().len() ==> !ends_so(word, #[trigger] endings()[k]))
            ==> stem(word) == word,
{
    let all = endings();
    assert(all[0] == "ization"@);
    assert(all[1] == "ation"@);
    assert(all[2] == "ment"@);
    assert(all[3] == "ing"@);
    assert(all[4] == "ion"@);
    assert(all[5] == "ed"@);
    assert(all[6] == "s"@);
    assert forall|k: int| 0 <= k < all.len() implies (ends_so(word, #[trigger] all[k])
        <==> has_ending(word, all[k])) && (has_ending(word, all[k]) ==> without_ending(word, all[k])
        + all[k] == word) by {
        lemma_ends_so(word, all[k]);
    }
    assert forall|k: int|
        0 <= k < all.len() && ends_so(word, #[trigger] all[k]) && (forall|j: int|
            0 <= j < k ==> !ends_so(word, #[trigger] all[j])) implies stem(word) + all[k]
        == word by {
        assert(has_ending(word, all[k]));
        assert(stem(word) == without_ending(word, all[k])) by {
            if k > 0 {
                assert(!has_ending(word, all[0]));
            }
            if k > 1 {
                assert(!has_ending(word, all[1]));
            }
            if k > 2 {
                assert(!has_ending(word, all[2]));
            }
            if k > 3 {
                assert(!has_ending(word, all[3]));
            }
            if k > 4 {
                assert(!has_ending(word, all[4]));
            }
            if k > 5 {
                assert(!has_ending(word, all[5]));
            }
        }
    }
    if forall|k: int| 0 <= k < all.len() ==> !ends_so(word, #[trigger] all[k]) {
        assert(!has_ending(word, all[0]));
        assert(!has_ending(word, all[1]));
        assert(!has_ending(word, all[2]));
        assert(!has_ending(word, all[3]));
        assert(!has_ending(word, all[4]));
        assert(!has_ending(word, all[5]));
        assert(!has_ending(word, all[6]));
    }
}

// ---------------------------------------------------------------------------
// Hints
// ---------------------------------------------------------------------------

/// Whether a task hints at this symbol, by what stands in the task in any case
/// of letters.
pub open spec fn hints_at(task: Seq<char>, symbol: Seq<char>) -> bool {
    let t = lower(task);
    ||| has_infix(t, "graphify"@) && (symbol == "query_graphify"@ || symbol
        == "compile_graphify_context"@)
    ||| has_infix(t, "enrich"@) && (symbol == "enrich_context"@ || symbol
        == "enrichment_or_empty"@)
    ||| has_infix(t, "memory"@) && (symbol == "memory_external"@ || symbol == "memory_agent"@
        || symbol == "process_context"@)
    ||| (has_infix(t, "messages_for_provider"@) || has_infix(t, "provider messages"@)) && (symbol
        == "messages_for_provider"@ || symbol == "CompactionManager"@)
    ||| has_infix(t, "tool output"@) && (symbol == "cap_tool_output_for_history"@ || symbol
        == "store_and_compact_tool_output"@)
    ||| has_infix(t, "environment"@) && has_infix(t, "override"@) && (symbol
        == "ContextCompressionMode"@ || symbol == "apply_env_overrides"@)
}

proof fn lemma_both_contain(a: Seq<Seq<char>>, b: Seq<Seq<char>>, x: Seq<char>)
    ensures
        (a + b).contains(x) <==> a.contains(x) || b.contains(x),
{
    if (a + b).contains(x) {
        let k = choose|k: int| 0 <= k < (a + b).len() && (a + b)[k] == x;
        if k < a.len() {
            assert(a[k] == x);
        } else {
            assert(b[k - a.len()] == x);
        }
    }
    if a.contains(x) {
        let k = choose|k: int| 0 <= k < a.len() && a[k] == x;
        assert((a + b)[k] == x);
    }
    if b.contains(x) {
        let k = choose|k: int| 0 <= k < b.len() && b[k] == x;
        assert((a + b)[k + a.len()] == x);
    }
}

proof fn lemma_two(when: bool, a: Seq<char>, b: Seq<char>, x: Seq<char>)
    ensures
        hinted(when, seq![a, b]).contains(x) <==> when && (x == a || x == b),
{
    let two = seq![a, b];
    assert(two[0] == a && two[1] == b);
    assert(two.contains(a) && two.contains(b));
}

proof fn lemma_three(when: bool, a: Seq<char>, b: Seq<char>, c: Seq<char>, x: Seq<char>)
    ensures
        hinted(when, seq![a, b, c]).contains(x) <==> when && (x == a || x == b || x == c),
{
    let three = seq![a, b, c];
    assert(three[0] == a && three[1] == b && three[2] == c);
    assert(three.contains(a) && three.contains(b) && three.contains(c));
}

/// The symbols that a task hints at are exactly those that its wording names.
pub proof fn law_hints(task: Seq<char>, symbol: Seq<char>)
    ensures
        hints(task).contains(symbol) <==> hints_at(task, symbol),
{
    let t = lower(task);
    let a = hinted(
        has_infix(t, "graphify"@),
        seq!["query_graphify"@, "compile_graphify_context"@],
    );
    let b = hinted(has_infix(t, "enrich"@), seq!["enrich_context"@, "enrichment_or_empty"@]);
    let c = hinted(
        has_infix(t, "memory"@),
        seq!["memory_external"@, "memory_agent"@, "process_context"@],
    );
    let d = hinted(
        has_infix(t, "messages_for_provider"@) || has_infix(t, "provider messages"@),
        seq!["messages_for_provider"@, "CompactionManager"@],
    );
    let e = hinted(
        has_infix(t, "tool output"@),
        seq!["cap_tool_output_for_history"@, "store_and_compact_tool_output"@],
    );
    let f = hinted(
        has_infix(t, "environment"@) && has_infix(t, "override"@),
        seq!["ContextCompressionMode"@, "apply_env_overrides"@],
    );
    assert(hints(task) == a + b + c + d + e + f);
    lemma_two(
        has_infix(t, "graphify"@),
        "query_graphify"@,
        "compile_graphify_context"@,
        symbol,
    );
    lemma_two(has_infix(t, "enrich"@), "enrich_context"@, "enrichment_or_empty"@, symbol);
    lemma_three(
        has_infix(t, "memory"@),
        "memory_external"@,
        "memory_agent"@,
        "process_context"@,
        symbol,
    );
    lemma_two(
        has_infix(t, "messages_for_provider"@) || has_infix(t, "provider messages"@),
        "messages_for_provider"@,
        "CompactionManager"@,
        symbol,
    );
    lemma_two(
        has_infix(t, "tool output"@),
        "cap_tool_output_for_history"@,
        "store_and_compact_tool_output"@,
        symbol,
    );
    lemma_two(
        has_infix(t, "environment"@) && has_infix(t, "override"@),
        "ContextCompressionMode"@,
        "apply_env_overrides"@,
        symbol,
    );
    lemma_both_contain(a, b, symbol);
    lemma_both_contain(a + b, c, symbol);
    lemma_both_contain(a + b + c, d, symbol);
    lemma_both_contain(a + b + c + d, e, symbol);
    lemma_both_contain(a + b + c + d + e, f, symbol);
}

/// Whatever stands in a text in small letters stands in a longer one around it.
pub proof fn lemma_wording_stays(a: Seq<char>, text: Seq<char>, b: Seq<char>, phrase: Seq<char>)
    requires
        has_infix(lower(text), phrase),
    ensures
        has_infix(lower(a + text + b), phrase),
{
    let i = choose|i: int| match_at(lower(text), phrase, i);
    let whole = lower(a + text + b);
    let j = i + a.len();
    assert(whole.subrange(j, j + phrase.len()) =~= lower(text).subrange(i, i + phrase.len()));
    assert(match_at(whole, phrase, j));
}

/// A task keeps its hints, and its interest in callers, whatever is written
/// before and after it.
pub proof fn law_hints_stay(a: Seq<char>, task: Seq<char>, b: Seq<char>)
    ensures
        forall|symbol: Seq<char>| #[trigger]
            hints(task).contains(symbol) ==> hints(a + task + b).contains(symbol),
        call_intent(task) ==> call_intent(a + task + b),
{
    let whole = a + task + b;
    assert forall|phrase: Seq<char>| #[trigger] has_infix(lower(task), phrase) implies has_infix(
        lower(whole),
        phrase,
    ) by {
        lemma_wording_stays(a, task, b, phrase);
    }
    assert forall|symbol: Seq<char>| #[trigger] hints(task).contains(symbol) implies hints(
        whole,
    ).contains(symbol) by {
        law_hints(task, symbol);
        law_hints(whole, symbol);
    }
}

/// A task asks for callers exactly where it speaks of a call path, of a trace or
/// of a caller.
pub proof fn law_call_intent(task: Seq<char>)
    ensures
        call_intent(task) <==> has_infix(lower(task), "call path"@) || has_infix(
            lower(task),
            "trace"@,
        ) || has_infix(lower(task), "caller"@),
{
}

// ---------------------------------------------------------------------------
// Queries
// ---------------------------------------------------------------------------

/// Whether this is a concept of these words: a word, the stem of one, or the
/// stems of two or three words in a row with underscores between them.
pub open spec fn is_concept(tokens: Seq<Seq<char>>, c: Seq<char>) -> bool {
    ||| tokens.contains(c)
    ||| exists|i: int| 0 <= i < tokens.len() && c == stem(#[trigger] tokens[i])
    ||| exists|i: int|
        0 <= i && i + 3 <= tokens.len() && c == stem(#[trigger] tokens[i]) + "_"@ + stem(
            tokens[i + 1],
        ) + "_"@ + stem(tokens[i + 2])
    ||| exists|i: int|
        0 <= i && i + 2 <= tokens.len() && c == stem(#[trigger] tokens[i]) + "_"@ + stem(
            tokens[i + 1],
        )
}

proof fn lemma_joined(parts: Seq<Seq<char>>, i: int)
    requires
        0 <= i,
    ensures
        i + 2 <= parts.len() ==> join_spec(parts.subrange(i, i + 2), "_"@) == parts[i] + "_"@
            + parts[i + 1],
        i + 3 <= parts.len() ==> join_spec(parts.subrange(i, i + 3), "_"@) == parts[i] + "_"@
            + parts[i + 1] + "_"@ + parts[i + 2],
{
    if i + 2 <= parts.len() {
        let two = parts.subrange(i, i + 2);
        assert(two.drop_last() =~= seq![parts[i]]);
        assert(join_spec(seq![parts[i]], "_"@) == parts[i]);
    }
    if i + 3 <= parts.len() {
        let three = parts.subrange(i, i + 3);
        assert(three.drop_last() =~= parts.subrange(i, i + 2));
    }
}

/// The concepts are those of the words, each once, and no others.
pub proof fn law_concepts(tokens: Seq<Seq<char>>)
    ensures
        concepts(tokens).no_duplicates(),
        forall|c: Seq<char>| #[trigger] concepts(tokens).contains(c) <==> is_concept(tokens, c),
{
    let roots = stems(tokens);
    let three = groups(roots, 3);
    let two = groups(roots, 2);
    let all = tokens + roots + three + two;
    lemma_distinct(all);
    assert forall|c: Seq<char>| #[trigger] concepts(tokens).contains(c) <==> is_concept(
        tokens,
        c,
    ) by {
        lemma_both_contain(tokens, roots, c);
        lemma_both_contain(tokens + roots, three, c);
        lemma_both_contain(tokens + roots + three, two, c);
        if roots.contains(c) {
            let i = choose|i: int| 0 <= i < roots.len() && roots[i] == c;
            assert(c == stem(tokens[i]));
        }
        if three.contains(c) {
            let i = choose|i: int| 0 <= i < three.len() && three[i] == c;
            lemma_joined(roots, i);
            assert(roots[i] == stem(tokens[i]));
            assert(c == stem(tokens[i]) + "_"@ + stem(tokens[i + 1]) + "_"@ + stem(tokens[i + 2]));
        }
        if two.contains(c) {
            let i = choose|i: int| 0 <= i < two.len() && two[i] == c;
            lemma_joined(roots, i);
            assert(roots[i] == stem(tokens[i]));
            assert(c == stem(tokens[i]) + "_"@ + stem(tokens[i + 1]));
        }
        if exists|i: int| 0 <= i < tokens.len() && c == stem(#[trigger] tokens[i]) {
            let i = choose|i: int| 0 <= i < tokens.len() && c == stem(#[trigger] tokens[i]);
            assert(roots[i] == c);
        }
        if exists|i: int|
            0 <= i && i + 3 <= tokens.len() && c == stem(#[trigger] tokens[i]) + "_"@ + stem(
                tokens[i + 1],
            ) + "_"@ + stem(tokens[i + 2]) {
            let i = choose|i: int|
                0 <= i && i + 3 <= tokens.len() && c == stem(#[trigger] tokens[i]) + "_"@ + stem(
                    tokens[i + 1],
                ) + "_"@ + stem(tokens[i + 2]);
            lemma_joined(roots, i);
            assert(three[i] == c);
        }
        if exists|i: int|
            0 <= i && i + 2 <= tokens.len() && c == stem(#[trigger] tokens[i]) + "_"@ + stem(
                tokens[i + 1],
            ) {
            let i = choose|i: int|
                0 <= i && i + 2 <= tokens.len() && c == stem(#[trigger] tokens[i]) + "_"@ + stem(
                    tokens[i + 1],
                );
            lemma_joined(roots, i);
            assert(two[i] == c);
        }
    }
}

/// The graph is asked the task itself, then its concepts in a line of at most
/// 240 characters, then the symbols that it hints at. The second is left out
/// where it says nothing new, and only the task is asked where no word counts.
pub proof fn law_queries(task: Seq<char>)
    ensures
        ({
            let asked = query_variants(task);
            let line = join_spec(concepts(query_tokens(task)), " "@);
            let short = if line.len() > 240 {
                line.take(240)
            } else {
                line
            };
            let again = short.len() > 0 && short != trim_spec(task);
            let named = hints(task).len() > 0;
            &&& asked[0] == trim_spec(task)
            &&& query_tokens(task).len() == 0 ==> asked.len() == 1
            &&& query_tokens(task).len() > 0 && again && named ==> asked.len() == 3 && asked[1]
                == short && asked[2] == join_spec(hints(task), " "@)
            &&& query_tokens(task).len() > 0 && again && !named ==> asked.len() == 2 && asked[1]
                == short
            &&& query_tokens(task).len() > 0 && !again && named ==> asked.len() == 2 && asked[1]
                == join_spec(hints(task), " "@)
            &&& query_tokens(task).len() > 0 && !again && !named ==> asked.len() == 1
        }),
{
}

// ---------------------------------------------------------------------------
// Names
// ---------------------------------------------------------------------------

/// A symbol's name does not end with a pair of parentheses, and only such pairs
/// and what is no part of a word at its ends are taken off.
pub proof fn law_symbol_names(name: Seq<char>)
    ensures
        !has_suffix(symbol_name(name), "()"@),
        has_prefix(trim_class_spec(name, CharClass::NonWord), symbol_name(name)),
        has_infix(name, symbol_name(name)),
        !has_suffix(trim_class_spec(name, CharClass::NonWord), "()"@) ==> symbol_name(name)
            == trim_class_spec(name, CharClass::NonWord),
{
    reveal_strlit("()");
    let inner = trim_class_spec(name, CharClass::NonWord);
    lemma_pairs_off(inner);
    law_trimmed(name, CharClass::NonWord);
    let kept = symbol_name(name);
    assert(match_at(inner, kept, 0));
    law_parts_of_parts(name, inner, kept);
}

proof fn lemma_pairs_off(s: Seq<char>)
    ensures
        !has_suffix(trim_end_text_spec(s, "()"@), "()"@),
        has_prefix(s, trim_end_text_spec(s, "()"@)),
        !has_suffix(s, "()"@) ==> trim_end_text_spec(s, "()"@) == s,
    decreases s.len(),
{
    reveal_strlit("()");
    if has_suffix(s, "()"@) {
        let less = s.take(s.len() - 2);
        lemma_pairs_off(less);
        let kept = trim_end_text_spec(less, "()"@);
        assert(less.subrange(0, kept.len() as int) == kept);
        assert(s.subrange(0, kept.len() as int) =~= less.subrange(0, kept.len() as int));
    } else {
        assert(s.subrange(0, s.len() as int) =~= s);
    }
}

/// The parts of a symbol's name are what stands between anything that is not
/// alphanumeric, without what is empty. Each is a part of the name, and two
/// names with a divider between them have the parts of both.
pub proof fn law_symbol_parts(name: Seq<char>)
    ensures
        forall|part: Seq<char>| #[trigger]
            symbol_parts(name).contains(part) <==> part.len() > 0 && fields_spec(
                trim_class_spec(name, CharClass::NonWord),
                CharClass::SymbolBreak,
            ).contains(part),
        forall|part: Seq<char>| #[trigger]
            symbol_parts(name).contains(part) ==> has_infix(name, part),
{
    let inner = trim_class_spec(name, CharClass::NonWord);
    let all = fields_spec(inner, CharClass::SymbolBreak);
    lemma_nonempty(all);
    law_fields_are_parts(inner, CharClass::SymbolBreak);
    law_trimmed(name, CharClass::NonWord);
    assert forall|part: Seq<char>| #[trigger]
        symbol_parts(name).contains(part) <==> part.len() > 0 && all.contains(part) by {
        assert(nonempty_spec(all).contains(part) <==> part.len() > 0 && all.contains(part));
    }
    assert forall|part: Seq<char>| #[trigger] symbol_parts(name).contains(part) implies has_infix(
        name,
        part,
    ) by {
        assert(all.contains(part));
        let k = choose|k: int| 0 <= k < all.len() && all[k] == part;
        assert(has_infix(inner, all[k]));
        law_parts_of_parts(name, inner, part);
    }
}

/// A name of two words with an underscore between them has both as its parts,
/// and the underscore is no part of either.
pub proof fn law_underscores_divide_parts(first: Seq<char>, second: Seq<char>)
    requires
        first.len() > 0,
        second.len() > 0,
        forall|k: int| 0 <= k < first.len() ==> unicode_alphanumeric(#[trigger] first[k]) && first[k]
            != '_',
        forall|k: int|
            0 <= k < second.len() ==> unicode_alphanumeric(#[trigger] second[k]) && second[k]
                != '_',
    ensures
        symbol_parts(first.push('_') + second) == seq![first, second],
{
    let class = CharClass::SymbolBreak;
    let name = first.push('_') + second;
    assert(name[0] == first[0]);
    assert(name.last() == second[second.len() - 1]);
    assert(!CharClass::NonWord.has(name[0]) && !CharClass::NonWord.has(name.last()));
    law_trimming_spares(name, CharClass::NonWord);
    law_dividers_divide(first, '_', second, class);
    law_undivided_texts(first, class);
    law_undivided_texts(second, class);
    let none = Seq::<Seq<char>>::empty();
    let two = seq![first] + seq![second];
    assert(two.drop_last() =~= seq![first]);
    assert(seq![first].drop_last() =~= none);
    assert(nonempty_spec(none) =~= none);
    assert(nonempty_spec(seq![first]) =~= seq![first]);
    assert(nonempty_spec(two) =~= seq![first, second]);
}

} // verus!
