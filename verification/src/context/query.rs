//! What a task asks for: its words, their stems, and the symbols it hints at.

use vstd::prelude::*;

use crate::text::{
    byte_len, byte_len_spec, chars_of, contains, distinct, distinct_spec, fields, fields_spec,
    has_infix, has_suffix, join, join_spec, lower, nonempty, nonempty_spec, same_text, string_of,
    strip_suffix, to_lower, trim, trim_class, trim_class_spec, trim_end_text, trim_end_text_spec,
    trim_spec, views, CharClass,
};

verus! {

/// How many characters a query may have.
pub const MAX_QUERY_CHARS: usize = 240;

// ---------------------------------------------------------------------------
// Words and stems
// ---------------------------------------------------------------------------

/// Whether a word says nothing of what is asked for.
pub open spec fn is_stopword_spec(word: Seq<char>) -> bool {
    ||| word == "the"@
    ||| word == "this"@
    ||| word == "that"@
    ||| word == "with"@
    ||| word == "from"@
    ||| word == "into"@
    ||| word == "only"@
    ||| word == "exact"@
    ||| word == "existing"@
    ||| word == "find"@
    ||| word == "show"@
    ||| word == "return"@
    ||| word == "repository"@
    ||| word == "production"@
    ||| word == "rust"@
    ||| word == "function"@
    ||| word == "functions"@
    ||| word == "call"@
    ||| word == "path"@
    ||| word == "trace"@
    ||| word == "through"@
    ||| word == "using"@
    ||| word == "used"@
    ||| word == "context"@
}

fn is_stopword(word: &str) -> (res: bool)
    ensures
        res == is_stopword_spec(word@),
{
    same_text(word, "the") || same_text(word, "this") || same_text(word, "that") || same_text(
        word,
        "with",
    ) || same_text(word, "from") || same_text(word, "into") || same_text(word, "only")
        || same_text(word, "exact") || same_text(word, "existing") || same_text(word, "find")
        || same_text(word, "show") || same_text(word, "return") || same_text(word, "repository")
        || same_text(word, "production") || same_text(word, "rust") || same_text(word, "function")
        || same_text(word, "functions") || same_text(word, "call") || same_text(word, "path")
        || same_text(word, "trace") || same_text(word, "through") || same_text(word, "using")
        || same_text(word, "used") || same_text(word, "context")
}

/// Whether a word counts: it is long enough and no stopword.
pub open spec fn is_meaningful(word: Seq<char>) -> bool {
    byte_len_spec(word) >= 3 && !is_stopword_spec(word)
}

/// The words among these that count.
pub open spec fn meaningful(words: Seq<Seq<char>>) -> Seq<Seq<char>>
    decreases words.len(),
{
    if words.len() == 0 {
        words
    } else {
        let before = meaningful(words.drop_last());
        if is_meaningful(words.last()) {
            before.push(words.last())
        } else {
            before
        }
    }
}

/// The words of a task that count, each once, in small letters.
pub open spec fn query_tokens(task: Seq<char>) -> Seq<Seq<char>> {
    distinct_spec(meaningful(fields_spec(lower(task), CharClass::NonWord)))
}

pub fn meaningful_query_tokens(task: &str) -> (res: Vec<String>)
    ensures
        views(res@) == query_tokens(task@),
{
    let words = fields(to_lower(task).as_str(), CharClass::NonWord);
    let ghost all = views(words@);
    let mut kept: Vec<String> = Vec::new();
    let mut i: usize = 0;
    assert(views(kept@) =~= meaningful(all.take(0)));
    while i < words.len()
        invariant
            i <= words@.len(),
            all == views(words@),
            views(kept@) == meaningful(all.take(i as int)),
        decreases words@.len() - i,
    {
        let ghost done = views(kept@);
        assert(all.take(i + 1).drop_last() =~= all.take(i as int));
        assert(all.take(i + 1).last() == words@[i as int]@);
        if byte_len(words[i].as_str()) >= 3 && !is_stopword(words[i].as_str()) {
            kept.push(words[i].clone());
            assert(views(kept@) =~= done.push(words@[i as int]@));
        }
        i += 1;
    }
    assert(all.take(i as int) =~= all);
    distinct(&kept)
}

/// Whether a word ends in this suffix and is long enough to lose it.
pub open spec fn has_ending(word: Seq<char>, suffix: Seq<char>) -> bool {
    byte_len_spec(word) > byte_len_spec(suffix) + 4 && has_suffix(word, suffix)
}

/// The word without its suffix.
pub open spec fn without_ending(word: Seq<char>, suffix: Seq<char>) -> Seq<char> {
    word.take(word.len() - suffix.len())
}

/// The word without the first of the known endings that it has.
pub open spec fn stem(word: Seq<char>) -> Seq<char> {
    if has_ending(word, "ization"@) {
        without_ending(word, "ization"@)
    } else if has_ending(word, "ation"@) {
        without_ending(word, "ation"@)
    } else if has_ending(word, "ment"@) {
        without_ending(word, "ment"@)
    } else if has_ending(word, "ing"@) {
        without_ending(word, "ing"@)
    } else if has_ending(word, "ion"@) {
        without_ending(word, "ion"@)
    } else if has_ending(word, "ed"@) {
        without_ending(word, "ed"@)
    } else if has_ending(word, "s"@) {
        without_ending(word, "s"@)
    } else {
        word
    }
}

fn cut_ending(word: &str, suffix: &str) -> (res: Option<String>)
    ensures
        res is Some <==> has_ending(word@, suffix@),
        res matches Some(rest) ==> rest@ == without_ending(word@, suffix@),
{
    let have = byte_len(word);
    let ending = byte_len(suffix);
    if have > ending && have - ending > 4 {
        strip_suffix(word, suffix)
    } else {
        None
    }
}

pub fn query_stem(token: &str) -> (res: String)
    ensures
        res@ == stem(token@),
{
    if let Some(rest) = cut_ending(token, "ization") {
        return rest;
    }
    if let Some(rest) = cut_ending(token, "ation") {
        return rest;
    }
    if let Some(rest) = cut_ending(token, "ment") {
        return rest;
    }
    if let Some(rest) = cut_ending(token, "ing") {
        return rest;
    }
    if let Some(rest) = cut_ending(token, "ion") {
        return rest;
    }
    if let Some(rest) = cut_ending(token, "ed") {
        return rest;
    }
    if let Some(rest) = cut_ending(token, "s") {
        return rest;
    }
    token.to_string()
}

// ---------------------------------------------------------------------------
// Symbols
// ---------------------------------------------------------------------------

/// A symbol's name without what surrounds it and without trailing brackets.
pub open spec fn symbol_name(name: Seq<char>) -> Seq<char> {
    trim_end_text_spec(trim_class_spec(name, CharClass::NonWord), "()"@)
}

pub fn normalize_symbol_name(name: &str) -> (res: String)
    ensures
        res@ == symbol_name(name@),
{
    trim_end_text(trim_class(name, CharClass::NonWord).as_str(), "()")
}

/// The parts of a symbol's name, divided at everything that is not
/// alphanumeric.
pub open spec fn symbol_parts(name: Seq<char>) -> Seq<Seq<char>> {
    nonempty_spec(fields_spec(trim_class_spec(name, CharClass::NonWord), CharClass::SymbolBreak))
}

pub fn normalized_symbol_tokens(name: &str) -> (res: Vec<String>)
    ensures
        views(res@) == symbol_parts(name@),
{
    nonempty(&fields(trim_class(name, CharClass::NonWord).as_str(), CharClass::SymbolBreak))
}

/// These symbols, where the condition holds.
pub open spec fn hinted(when: bool, symbols: Seq<Seq<char>>) -> Seq<Seq<char>> {
    if when {
        symbols
    } else {
        Seq::empty()
    }
}

/// The symbols that a task hints at.
pub open spec fn hints(task: Seq<char>) -> Seq<Seq<char>> {
    let t = lower(task);
    hinted(has_infix(t, "graphify"@), seq!["query_graphify"@, "compile_graphify_context"@])
        + hinted(has_infix(t, "enrich"@), seq!["enrich_context"@, "enrichment_or_empty"@])
        + hinted(
        has_infix(t, "memory"@),
        seq!["memory_external"@, "memory_agent"@, "process_context"@],
    ) + hinted(
        has_infix(t, "messages_for_provider"@) || has_infix(t, "provider messages"@),
        seq!["messages_for_provider"@, "CompactionManager"@],
    ) + hinted(
        has_infix(t, "tool output"@),
        seq!["cap_tool_output_for_history"@, "store_and_compact_tool_output"@],
    ) + hinted(
        has_infix(t, "environment"@) && has_infix(t, "override"@),
        seq!["ContextCompressionMode"@, "apply_env_overrides"@],
    )
}

pub fn symbol_hints(task: &str) -> (res: Vec<String>)
    ensures
        views(res@) == hints(task@),
{
    let t = to_lower(task);
    let t = t.as_str();
    let mut symbols: Vec<String> = Vec::new();
    let ghost mut done: Seq<Seq<char>> = Seq::empty();
    if contains(t, "graphify") {
        symbols.push("query_graphify".to_string());
        symbols.push("compile_graphify_context".to_string());
    }
    proof {
        done = hinted(
            has_infix(t@, "graphify"@),
            seq!["query_graphify"@, "compile_graphify_context"@],
        );
        assert(views(symbols@) =~= done);
    }
    if contains(t, "enrich") {
        symbols.push("enrich_context".to_string());
        symbols.push("enrichment_or_empty".to_string());
    }
    proof {
        done = done + hinted(
            has_infix(t@, "enrich"@),
            seq!["enrich_context"@, "enrichment_or_empty"@],
        );
        assert(views(symbols@) =~= done);
    }
    if contains(t, "memory") {
        symbols.push("memory_external".to_string());
        symbols.push("memory_agent".to_string());
        symbols.push("process_context".to_string());
    }
    proof {
        done = done + hinted(
            has_infix(t@, "memory"@),
            seq!["memory_external"@, "memory_agent"@, "process_context"@],
        );
        assert(views(symbols@) =~= done);
    }
    if contains(t, "messages_for_provider") || contains(t, "provider messages") {
        symbols.push("messages_for_provider".to_string());
        symbols.push("CompactionManager".to_string());
    }
    proof {
        done = done + hinted(
            has_infix(t@, "messages_for_provider"@) || has_infix(t@, "provider messages"@),
            seq!["messages_for_provider"@, "CompactionManager"@],
        );
        assert(views(symbols@) =~= done);
    }
    if contains(t, "tool output") {
        symbols.push("cap_tool_output_for_history".to_string());
        symbols.push("store_and_compact_tool_output".to_string());
    }
    proof {
        done = done + hinted(
            has_infix(t@, "tool output"@),
            seq!["cap_tool_output_for_history"@, "store_and_compact_tool_output"@],
        );
        assert(views(symbols@) =~= done);
    }
    if contains(t, "environment") && contains(t, "override") {
        symbols.push("ContextCompressionMode".to_string());
        symbols.push("apply_env_overrides".to_string());
    }
    assert(views(symbols@) =~= hints(task@));
    symbols
}

/// Whether a task asks who calls whom.
pub open spec fn call_intent(task: Seq<char>) -> bool {
    let t = lower(task);
    has_infix(t, "call path"@) || has_infix(t, "trace"@) || has_infix(t, "caller"@)
}

pub fn graphify_call_intent(task: &str) -> (res: bool)
    ensures
        res == call_intent(task@),
{
    let t = to_lower(task);
    contains(t.as_str(), "call path") || contains(t.as_str(), "trace") || contains(
        t.as_str(),
        "caller",
    )
}

// ---------------------------------------------------------------------------
// Queries
// ---------------------------------------------------------------------------

/// The stems of these words.
pub open spec fn stems(tokens: Seq<Seq<char>>) -> Seq<Seq<char>> {
    tokens.map_values(|t: Seq<char>| stem(t))
}

/// The identifiers made of `width` neighbours.
pub open spec fn groups(parts: Seq<Seq<char>>, width: nat) -> Seq<Seq<char>> {
    Seq::new(
        if parts.len() >= width {
            (parts.len() - width + 1) as nat
        } else {
            0
        },
        |i: int| join_spec(parts.subrange(i, i + width), "_"@),
    )
}

/// What the code graph is asked for besides the task itself: the words, their
/// stems, and the identifiers that three or two neighbouring stems make.
pub open spec fn concepts(tokens: Seq<Seq<char>>) -> Seq<Seq<char>> {
    distinct_spec(tokens + stems(tokens) + groups(stems(tokens), 3) + groups(stems(tokens), 2))
}

/// The parts as one query, cut to the limit.
pub open spec fn bounded(parts: Seq<Seq<char>>) -> Seq<char> {
    let joined = join_spec(parts, " "@);
    if joined.len() > MAX_QUERY_CHARS {
        joined.take(MAX_QUERY_CHARS as int)
    } else {
        joined
    }
}

/// The queries for a task: the task, the concepts in it, and the symbols that
/// it hints at.
pub open spec fn query_variants(task: Seq<char>) -> Seq<Seq<char>> {
    let tokens = query_tokens(task);
    let original = trim_spec(task);
    if tokens.len() == 0 {
        seq![original]
    } else {
        let query = bounded(concepts(tokens));
        let first = if query.len() > 0 && query != original {
            seq![original, query]
        } else {
            seq![original]
        };
        if hints(task).len() > 0 {
            first.push(join_spec(hints(task), " "@))
        } else {
            first
        }
    }
}

fn bounded_query(parts: &Vec<String>) -> (res: String)
    ensures
        res@ == bounded(views(parts@)),
{
    let joined = join(parts, " ");
    let chars = chars_of(joined.as_str());
    if chars.len() > MAX_QUERY_CHARS {
        let cut = string_of(&chars, 0, MAX_QUERY_CHARS);
        assert(cut@ =~= joined@.take(MAX_QUERY_CHARS as int));
        cut
    } else {
        joined
    }
}

fn stem_all(tokens: &Vec<String>) -> (res: Vec<String>)
    ensures
        views(res@) == stems(views(tokens@)),
{
    let ghost all = stems(views(tokens@));
    let mut res: Vec<String> = Vec::new();
    let mut i: usize = 0;
    while i < tokens.len()
        invariant
            i <= tokens@.len(),
            all == stems(views(tokens@)),
            views(res@) =~= all.take(i as int),
        decreases tokens@.len() - i,
    {
        let ghost done = views(res@);
        let one = query_stem(tokens[i].as_str());
        let ghost text = one@;
        assert(all[i as int] == text);
        res.push(one);
        assert(views(res@) =~= done.push(text));
        i += 1;
    }
    assert(all.take(i as int) =~= all);
    res
}

fn group_all(stemmed: &Vec<String>, width: usize) -> (res: Vec<String>)
    requires
        width >= 1,
    ensures
        views(res@) == groups(views(stemmed@), width as nat),
{
    let ghost all = groups(views(stemmed@), width as nat);
    let mut res: Vec<String> = Vec::new();
    let mut i: usize = 0;
    if stemmed.len() < width {
        assert(views(res@) =~= all);
        return res;
    }
    let last = stemmed.len() - width;
    while i <= last
        invariant
            width >= 1,
            last + width == stemmed.len(),
            i <= last + 1,
            all == groups(views(stemmed@), width as nat),
            views(res@) =~= all.take(i as int),
        decreases last + 1 - i,
    {
        let ghost done = views(res@);
        let mut part: Vec<String> = Vec::new();
        let mut k: usize = 0;
        while k < width
            invariant
                k <= width,
                i <= last,
                last + width == stemmed.len(),
                part@ == stemmed@.subrange(i as int, i + k),
            decreases width - k,
        {
            part.push(stemmed[i + k].clone());
            k += 1;
            assert(part@ =~= stemmed@.subrange(i as int, i + k));
        }
        let one = join(&part, "_");
        let ghost text = one@;
        assert(views(part@) =~= views(stemmed@).subrange(i as int, i + width));
        assert(all[i as int] == text);
        res.push(one);
        assert(views(res@) =~= done.push(text));
        i += 1;
    }
    assert(all.take(i as int) =~= all);
    res
}

pub fn graphify_query_variants(task: &str) -> (res: Vec<String>)
    ensures
        views(res@) == query_variants(task@),
{
    let tokens = meaningful_query_tokens(task);
    let original = trim(task);
    let mut variants: Vec<String> = Vec::new();
    if tokens.len() == 0 {
        variants.push(original);
        assert(views(variants@) =~= query_variants(task@));
        return variants;
    }
    let mut stemmed = stem_all(&tokens);
    let mut threes = group_all(&stemmed, 3);
    let mut twos = group_all(&stemmed, 2);
    let mut all = tokens;
    let ghost parts = (all@, stemmed@, threes@, twos@);
    all.append(&mut stemmed);
    all.append(&mut threes);
    all.append(&mut twos);
    assert(views(all@) =~= views(parts.0) + views(parts.1) + views(parts.2) + views(parts.3));
    let query = bounded_query(&distinct(&all));
    let differs = !query.as_str().is_empty() && !same_text(query.as_str(), original.as_str());
    let ghost texts = (original@, query@);
    variants.push(original);
    if differs {
        variants.push(query);
    }
    let ghost first = if differs {
        seq![texts.0, texts.1]
    } else {
        seq![texts.0]
    };
    assert(views(variants@) =~= first);
    let symbols = symbol_hints(task);
    if symbols.len() > 0 {
        variants.push(join(&symbols, " "));
        assert(views(variants@) =~= first.push(join_spec(hints(task@), " "@)));
    }
    variants
}

} // verus!
