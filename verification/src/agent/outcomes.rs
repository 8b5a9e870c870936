//! What comes into an agent's prompt, said of what was found and remembered.

use vstd::prelude::*;

use crate::agent::enrichment::{
    at_most, below_vault, context_entries, entries_of, entry_of, fallback_title, filled,
    graphify_results_spec, leads_on, next_step, note_spec, pgvector_results_spec, stem_of,
    steps_end, title_spec, vault_search_spec, where_enabled, EnabledSources, EnrichmentView,
    EntryView, MemoryCategory,
};
use crate::agent::prompting::{
    lemma_merged_ids, merged, merged_ids, reminded, MemoryView, SplitView,
};
use crate::paths::components_spec;
use crate::team_memory_laws::{is_name, lemma_name_steps, lemma_steps_add};
use crate::text::{
    fields_spec, has_infix, has_prefix, lines_spec, match_at, trim_class_spec, trim_spec, CharClass,
};
use crate::text_laws::{
    law_divided_at_the_last_mark, law_dividers_divide, law_fields_are_parts, law_rejoined_fields,
    law_replacing_goes_on, law_replacing_spares, law_undivided_texts, lemma_last_match_is,
};

verus! {

// ---------------------------------------------------------------------------
// Memory
// ---------------------------------------------------------------------------

/// What is remembered from before and what is found now come together: the old
/// text before the new one with a blank line between them, also in what is
/// displayed, where both display something. The counts add up, the time is that
/// of the older one, and each identifier comes once, the old ones first.
pub proof fn law_memories_come_together(old: MemoryView, new: MemoryView)
    ensures
        ({
            let both = merged(Some(old), Some(new))->0;
            &&& merged(Some(old), Some(new)) is Some
            &&& both.prompt == old.prompt + "\n\n"@ + new.prompt
            &&& old.display_prompt is Some && new.display_prompt is Some ==> both.display_prompt
                == Some(old.display_prompt->0 + "\n\n"@ + new.display_prompt->0)
            &&& old.display_prompt is None ==> both.display_prompt == new.display_prompt
            &&& new.display_prompt is None ==> both.display_prompt == old.display_prompt
            &&& both.computed_at == old.computed_at
            &&& old.count + new.count <= usize::MAX ==> both.count == old.count + new.count
            &&& old.count + new.count > usize::MAX ==> both.count == usize::MAX
            &&& both.memory_ids.len() >= old.memory_ids.len()
            &&& both.memory_ids.take(old.memory_ids.len() as int) == old.memory_ids
            &&& forall|id: Seq<char>| #[trigger]
                both.memory_ids.contains(id) <==> old.memory_ids.contains(id)
                    || new.memory_ids.contains(id)
            &&& old.memory_ids.no_duplicates() ==> both.memory_ids.no_duplicates()
        }),
        merged(Some(old), None) == Some(old),
        merged(None, Some(new)) == Some(new),
        merged(None, None) is None,
{
    lemma_merged_ids(old.memory_ids, new.memory_ids);
}

/// The identifiers that are new keep their order.
pub proof fn law_new_identifiers_keep_their_order(
    left: Seq<Seq<char>>,
    right: Seq<Seq<char>>,
)
    requires
        right.no_duplicates(),
        forall|i: int| 0 <= i < right.len() ==> !left.contains(#[trigger] right[i]),
    ensures
        merged_ids(left, right) == left + right,
    decreases right.len(),
{
    if right.len() == 0 {
        assert(left + right =~= left);
    } else {
        let front = right.drop_last();
        assert forall|i: int| 0 <= i < front.len() implies !left.contains(#[trigger] front[i]) by {
            assert(front[i] == right[i]);
        }
        law_new_identifiers_keep_their_order(left, front);
        let last = right.last();
        assert(!left.contains(right[right.len() - 1]));
        if (left + front).contains(last) {
            let k = choose|k: int| 0 <= k < (left + front).len() && (left + front)[k] == last;
            if k < left.len() {
                assert(left[k] == last);
            } else {
                assert(right[k - left.len()] == last);
            }
        }
        assert((left + front).push(last) =~= left + right);
    }
}

/// A reminder for the turn stands at the end of the part that changes, under
/// its heading and behind a blank line where anything is there. A reminder of
/// white space alone changes nothing, and the part that stays is never touched.
pub proof fn law_reminders_come_last(split: SplitView, reminder: Option<Seq<char>>)
    ensures
        reminded(split, reminder).static_part == split.static_part,
        reminder is None ==> reminded(split, reminder) == split,
        reminder is Some && trim_spec(reminder->0).len() == 0 ==> reminded(split, reminder)
            == split,
        reminder is Some && trim_spec(reminder->0).len() > 0 && split.dynamic_part.len() == 0
            ==> reminded(split, reminder).dynamic_part == "# System Reminder\n\n"@ + trim_spec(
            reminder->0,
        ),
        reminder is Some && trim_spec(reminder->0).len() > 0 && split.dynamic_part.len() > 0
            ==> reminded(split, reminder).dynamic_part == split.dynamic_part
            + "\n\n# System Reminder\n\n"@ + trim_spec(reminder->0),
{
    reveal_strlit("\n\n");
    reveal_strlit("# System Reminder\n\n");
    reveal_strlit("\n\n# System Reminder\n\n");
    assert("\n\n"@ + "# System Reminder\n\n"@ =~= "\n\n# System Reminder\n\n"@);
    if reminder is Some {
        assert(split.dynamic_part + "\n\n"@ + "# System Reminder\n\n"@ =~= split.dynamic_part + (
        "\n\n"@ + "# System Reminder\n\n"@));
        if split.dynamic_part.len() == 0 {
            assert(split.dynamic_part + "# System Reminder\n\n"@ =~= "# System Reminder\n\n"@);
        }
    }
}

// ---------------------------------------------------------------------------
// Lines that were found
// ---------------------------------------------------------------------------

proof fn lemma_filled_lines(all: Seq<Seq<char>>)
    ensures
        filled(all, true) == all.map_values(|line: Seq<char>| trim_spec(line)).filter(
            |line: Seq<char>| line.len() > 0 && !has_prefix(line, "NODE"@),
        ),
        filled(all, false) == all.map_values(|line: Seq<char>| trim_spec(line)).filter(
            |line: Seq<char>| line.len() > 0,
        ),
    decreases all.len(),
{
    reveal(Seq::filter);
    let trimmed = all.map_values(|line: Seq<char>| trim_spec(line));
    if all.len() == 0 {
        assert(trimmed =~= all);
    } else {
        lemma_filled_lines(all.drop_last());
        assert(trimmed.drop_last() =~= all.drop_last().map_values(
            |line: Seq<char>| trim_spec(line),
        ));
    }
}

/// What the graph found are its first ten lines, trimmed and in their order,
/// without the blank ones and those that list a node.
pub proof fn law_graph_results(stdout: Seq<char>)
    ensures
        ({
            let lines = lines_spec(stdout);
            let first = if lines.len() > 10 {
                lines.take(10)
            } else {
                lines
            };
            let kept = first.map_values(|line: Seq<char>| trim_spec(line)).filter(
                |line: Seq<char>| line.len() > 0 && !has_prefix(line, "NODE"@),
            );
            let found = graphify_results_spec(stdout);
            &&& found.len() == kept.len()
            &&& forall|i: int|
                0 <= i < found.len() ==> (#[trigger] found[i]) == (EnrichmentView {
                    content: kept[i],
                    source: "graphify"@,
                    source_id: None,
                })
        }),
{
    let first = at_most(lines_spec(stdout), 10);
    lemma_filled_lines(first);
}

/// What the vectors found are their first eight lines, trimmed and in their
/// order, without the blank ones. The paths of the vault's notes come likewise.
pub proof fn law_vector_results(stdout: Seq<char>)
    ensures
        ({
            let lines = lines_spec(stdout);
            let first = if lines.len() > 8 {
                lines.take(8)
            } else {
                lines
            };
            let kept = first.map_values(|line: Seq<char>| trim_spec(line)).filter(
                |line: Seq<char>| line.len() > 0,
            );
            let found = pgvector_results_spec(stdout);
            &&& found.len() == kept.len()
            &&& forall|i: int|
                0 <= i < found.len() ==> (#[trigger] found[i]) == (EnrichmentView {
                    content: kept[i],
                    source: "pgvector"@,
                    source_id: None,
                })
            &&& filled(at_most(lines, 8), false) == kept
        }),
{
    let first = at_most(lines_spec(stdout), 8);
    lemma_filled_lines(first);
}

// ---------------------------------------------------------------------------
// Entries
// ---------------------------------------------------------------------------

/// Whether an entry holds what was found: its content behind the label of its
/// source, in the source's collection, and tagged with its identifier, where it
/// has one, the label, and that it comes from outside.
pub open spec fn entry_holds(
    entry: EntryView,
    found: EnrichmentView,
    label: Seq<char>,
    collection: Seq<char>,
) -> bool {
    &&& entry.category == MemoryCategory::External
    &&& entry.collection == collection
    &&& entry.content == "["@ + label + "] "@ + found.content
    &&& entry.source == found.source
    &&& found.source_id is Some ==> entry.tags.len() == 3 && entry.tags[0] == found.source_id->0
        && entry.tags[1] == label && entry.tags[2] == "external_enrichment"@
    &&& found.source_id is None ==> entry.tags.len() == 2 && entry.tags[0] == label && entry.tags[1]
        == "external_enrichment"@
}

/// What was found comes into the context source by source: first the graph,
/// then the vault, then the vectors, each where it is enabled, and each in the
/// order in which it was found. Nothing is added and nothing is lost.
pub proof fn law_sources_come_in_turn(
    enabled: EnabledSources,
    graphify: Seq<EnrichmentView>,
    vault: Seq<EnrichmentView>,
    pgvector: Seq<EnrichmentView>,
)
    ensures
        ({
            let all = context_entries(enabled, graphify, vault, pgvector);
            let a: int = if enabled.graphify {
                graphify.len() as int
            } else {
                0
            };
            let b: int = if enabled.vault {
                vault.len() as int
            } else {
                0
            };
            let c: int = if enabled.pgvector {
                pgvector.len() as int
            } else {
                0
            };
            &&& all.len() == a + b + c
            &&& forall|i: int|
                0 <= i < a ==> entry_holds(
                    #[trigger] all[i],
                    graphify[i],
                    "graphify"@,
                    "graphify-codebase"@,
                )
            &&& forall|i: int|
                a <= i < a + b ==> entry_holds(
                    #[trigger] all[i],
                    vault[i - a],
                    "vault"@,
                    "vault-obsidian"@,
                )
            &&& forall|i: int|
                a + b <= i < a + b + c ==> entry_holds(
                    #[trigger] all[i],
                    pgvector[i - a - b],
                    "pgvector"@,
                    "pgvector-rag"@,
                )
        }),
{
    let x = where_enabled(enabled.graphify, entries_of(graphify, "graphify"@, "graphify-codebase"@));
    let y = where_enabled(enabled.vault, entries_of(vault, "vault"@, "vault-obsidian"@));
    let z = where_enabled(enabled.pgvector, entries_of(pgvector, "pgvector"@, "pgvector-rag"@));
    let all = context_entries(enabled, graphify, vault, pgvector);
    assert forall|i: int| 0 <= i < x.len() implies entry_holds(
        #[trigger] all[i],
        graphify[i],
        "graphify"@,
        "graphify-codebase"@,
    ) by {
        assert(all[i] == x[i]);
        assert(x[i] == entry_of(graphify[i], "graphify"@, "graphify-codebase"@));
    }
    assert forall|i: int| x.len() <= i < x.len() + y.len() implies entry_holds(
        #[trigger] all[i],
        vault[i - x.len()],
        "vault"@,
        "vault-obsidian"@,
    ) by {
        assert(all[i] == y[i - x.len()]);
        assert(y[i - x.len()] == entry_of(vault[i - x.len()], "vault"@, "vault-obsidian"@));
    }
    assert forall|i: int|
        x.len() + y.len() <= i < x.len() + y.len() + z.len() implies entry_holds(
        #[trigger] all[i],
        pgvector[i - x.len() - y.len()],
        "pgvector"@,
        "pgvector-rag"@,
    ) by {
        let k = i - x.len() - y.len();
        assert(all[i] == z[k]);
        assert(z[k] == entry_of(pgvector[k], "pgvector"@, "pgvector-rag"@));
    }
}

// ---------------------------------------------------------------------------
// The vault
// ---------------------------------------------------------------------------

/// A note links to its file below the vault, under its title or else under the
/// file's name, and carries that path as its identifier.
pub proof fn law_notes_link_to_their_file(path: Seq<char>, title: Option<Seq<char>>)
    ensures
        ({
            let note = note_spec(path, title);
            let name = if title is Some {
                title->0
            } else {
                fallback_title(path)
            };
            &&& note.content == "["@ + name + "]("@ + below_vault(path) + ")"@
            &&& note.source_id == Some(below_vault(path))
            &&& note.source == "vault"@
        }),
{
}

proof fn lemma_skips(all: Seq<Seq<char>>, inside: bool, n: int)
    requires
        0 <= n <= all.len(),
        forall|k: int|
            0 <= k < n ==> trim_spec(#[trigger] all[k]) != "---"@ && !(inside && has_prefix(
                trim_spec(all[k]),
                "title:"@,
            )),
    ensures
        title_spec(all, inside) == title_spec(all.skip(n), inside),
    decreases n,
{
    if n == 0 {
        assert(all.skip(0) =~= all);
    } else {
        let rest = all.drop_first();
        assert forall|k: int| 0 <= k < n - 1 implies trim_spec(#[trigger] rest[k]) != "---"@ && !(
        inside && has_prefix(trim_spec(rest[k]), "title:"@)) by {
            assert(rest[k] == all[k + 1]);
        }
        assert(trim_spec(all[0]) != "---"@);
        lemma_skips(rest, inside, n - 1);
        assert(rest.skip(n - 1) =~= all.skip(n));
    }
}

/// A note's title is what follows `title:` in its front matter: between the
/// first line of three hyphens and the next one. White space and quotation
/// marks around it are left out.
pub proof fn law_titles_stand_in_the_front_matter(all: Seq<Seq<char>>, open: int, at: int)
    requires
        0 <= open < at < all.len(),
        trim_spec(all[open]) == "---"@,
        has_prefix(trim_spec(all[at]), "title:"@),
        forall|k: int| 0 <= k < open ==> trim_spec(#[trigger] all[k]) != "---"@,
        forall|k: int|
            open < k < at ==> trim_spec(#[trigger] all[k]) != "---"@ && !has_prefix(
                trim_spec(all[k]),
                "title:"@,
            ),
    ensures
        title_spec(all, false) == Some(
            trim_class_spec(trim_spec(trim_spec(all[at]).skip(6)), CharClass::Only('"')),
        ),
{
    reveal_strlit("title:");
    reveal_strlit("---");
    lemma_skips(all, false, open);
    let from = all.skip(open);
    assert(from[0] == all[open]);
    let rest = all.skip(open + 1);
    assert(from.drop_first() =~= rest);
    assert(title_spec(all, false) == title_spec(rest, true));
    let n = at - open - 1;
    assert forall|k: int| 0 <= k < n implies trim_spec(#[trigger] rest[k]) != "---"@ && !(true
        && has_prefix(trim_spec(rest[k]), "title:"@)) by {
        assert(rest[k] == all[k + open + 1]);
    }
    lemma_skips(rest, true, n);
    let last = rest.skip(n);
    assert(last[0] == all[at]);
    let line = trim_spec(all[at]);
    let start = line.subrange(0, 6);
    assert(start == "title:"@);
    assert(start[0] == line[0]);
    assert(line[0] == 't');
    assert("---"@[0] == '-');
    assert(line != "---"@);
}

/// A note without front matter, or whose front matter ends before any title,
/// has none.
pub proof fn law_other_notes_have_no_title(all: Seq<Seq<char>>, open: int, close: int)
    requires
        0 <= open <= all.len(),
        forall|k: int| 0 <= k < open ==> trim_spec(#[trigger] all[k]) != "---"@,
        open < all.len() ==> open < close <= all.len() && trim_spec(all[open]) == "---"@ && (close
            < all.len() ==> trim_spec(all[close]) == "---"@),
        forall|k: int|
            open < k < close && k < all.len() ==> trim_spec(#[trigger] all[k]) != "---"@
                && !has_prefix(trim_spec(all[k]), "title:"@),
    ensures
        title_spec(all, false) is None,
{
    lemma_skips(all, false, open);
    let from = all.skip(open);
    if open < all.len() {
        assert(from[0] == all[open]);
        let rest = all.skip(open + 1);
        assert(from.drop_first() =~= rest);
        assert(title_spec(all, false) == title_spec(rest, true));
        let n = close - open - 1;
        assert forall|k: int| 0 <= k < n implies trim_spec(#[trigger] rest[k]) != "---"@ && !(true
            && has_prefix(trim_spec(rest[k]), "title:"@)) by {
            assert(rest[k] == all[k + open + 1]);
        }
        lemma_skips(rest, true, n);
        let last = rest.skip(n);
        if close < all.len() {
            assert(last[0] == all[close]);
        } else {
            assert(last =~= Seq::<Seq<char>>::empty());
        }
    } else {
        assert(from =~= Seq::<Seq<char>>::empty());
    }
}

/// A file's name without its extension is what stands before the last period,
/// and the whole name where nothing does.
pub proof fn law_names_without_extension(name: Seq<char>, extension: Seq<char>)
    requires
        forall|k: int| 0 <= k < extension.len() ==> #[trigger] extension[k] != '.',
    ensures
        name.len() > 0 ==> stem_of(name + "."@ + extension) == name,
        name.len() == 0 ==> stem_of(name + "."@ + extension) == "."@ + extension,
        stem_of(extension) == extension,
{
    reveal_strlit(".");
    let mark = "."@;
    let whole = name + mark + extension;
    let n = name.len() as int;
    assert(whole.subrange(n, n + 1) =~= mark);
    assert(match_at(whole, mark, n));
    assert forall|j: int| n < j <= whole.len() implies !#[trigger] match_at(whole, mark, j) by {
        if match_at(whole, mark, j) {
            let found = whole.subrange(j, j + 1);
            assert(found[0] == whole[j]);
            assert(whole[j] == extension[j - n - 1]);
        }
    }
    lemma_last_match_is(whole, mark, whole.len() as int, n);
    assert(whole.take(n) =~= name);
    if name.len() == 0 {
        assert(whole =~= mark + extension);
    }
    law_divided_at_the_last_mark(extension, mark);
    if has_infix(extension, mark) {
        let j = choose|j: int| match_at(extension, mark, j);
        let found = extension.subrange(j, j + 1);
        assert(found[0] == extension[j]);
    }
}

proof fn lemma_vault_parts(rest: Seq<char>)
    ensures
        fields_spec("/sharedssd/vault/"@ + rest, CharClass::Only('/')) == seq![
            Seq::<char>::empty(),
            "sharedssd"@,
            "vault"@,
        ] + fields_spec(rest, CharClass::Only('/')),
{
    reveal_strlit("/sharedssd/vault/");
    reveal_strlit("sharedssd");
    reveal_strlit("vault");
    let class = CharClass::Only('/');
    let none = Seq::<char>::empty();
    let path = "/sharedssd/vault/"@ + rest;
    let inner = "vault"@.push('/') + rest;
    let middle = "sharedssd"@.push('/') + inner;
    assert(path =~= none.push('/') + middle);
    law_dividers_divide(none, '/', middle, class);
    law_dividers_divide("sharedssd"@, '/', inner, class);
    law_dividers_divide("vault"@, '/', rest, class);
    law_undivided_texts(none, class);
    law_undivided_texts("sharedssd"@, class);
    law_undivided_texts("vault"@, class);
    let tail = fields_spec(rest, class);
    assert(seq![none] + (seq!["sharedssd"@] + (seq!["vault"@] + tail)) =~= seq![
        none,
        "sharedssd"@,
        "vault"@,
    ] + tail);
}

/// A path in the vault is told from the vault on, as it is written, where it
/// neither starts nor ends with an empty step or a stay in place.
pub proof fn law_paths_are_told_from_the_vault_on(rest: Seq<char>)
    requires
        ({
            let parts = fields_spec(rest, CharClass::Only('/'));
            leads_on(parts[0]) && leads_on(parts.last())
        }),
    ensures
        below_vault("/sharedssd/vault/"@ + rest) == rest,
{
    reveal_strlit("/sharedssd/vault/");
    reveal_strlit("sharedssd");
    reveal_strlit("vault");
    reveal_strlit(".");
    let class = CharClass::Only('/');
    let path = "/sharedssd/vault/"@ + rest;
    let parts = fields_spec(path, class);
    let tail = fields_spec(rest, class);
    law_fields_are_parts(rest, class);
    lemma_vault_parts(rest);
    assert(path[0] == '/');
    assert(parts[0] =~= Seq::<char>::empty());
    assert("sharedssd"@.len() == 9 && "vault"@.len() == 5 && "."@.len() == 1);
    assert(parts[1] == "sharedssd"@ && parts[2] == "vault"@);
    assert(leads_on(parts[1]) && leads_on(parts[2]) && !leads_on(parts[0]));
    assert(next_step(parts, 1) == Some(1int));
    assert(next_step(parts, 0) == Some(1int));
    assert(next_step(parts, 2) == Some(2int));
    assert(parts[3] == tail[0]);
    assert(next_step(parts, 3) == Some(3int));
    let n = parts.len() as int;
    assert(parts[n - 1] == tail.last());
    assert(steps_end(parts, n) == n);
    assert(parts.subrange(3, n) =~= tail);
    reveal_strlit("/");
    assert("/"@ =~= seq!['/']);
    law_rejoined_fields(rest, '/');
}

/// A path that does not start at the root is told as it is.
pub proof fn law_other_paths_are_told_whole(path: Seq<char>)
    requires
        path.len() == 0 || path[0] != '/',
    ensures
        below_vault(path) == path,
{
}

/// A note without a title is named after its file: by the last step of its
/// path, without the extension.
pub proof fn law_notes_are_named_after_their_file(
    dir: Seq<char>,
    name: Seq<char>,
    extension: Seq<char>,
)
    requires
        is_name(name),
        name[0] != '.',
        forall|k: int|
            0 <= k < extension.len() ==> #[trigger] extension[k] != '.' && extension[k] != '/',
    ensures
        fallback_title(dir + "/"@ + (name + "."@ + extension)) == name,
{
    reveal_strlit("/");
    reveal_strlit(".");
    reveal_strlit("..");
    let class = CharClass::Only('/');
    let file = name + "."@ + extension;
    let path = dir + "/"@ + file;
    assert forall|k: int| 0 <= k < file.len() implies #[trigger] file[k] != '/' by {
        if k < name.len() {
            assert(file[k] == name[k]);
        } else if k > name.len() {
            assert(file[k] == extension[k - name.len() - 1]);
        }
    }
    assert(file[0] == name[0]);
    assert(file != "."@ && file != ".."@ && file != "/"@);
    lemma_name_steps(file);
    assert(path =~= dir.push('/') + file);
    law_dividers_divide(dir, '/', file, class);
    lemma_steps_add(fields_spec(dir, class), seq![file]);
    let parts = components_spec(path);
    assert(parts.last() == file);
    law_names_without_extension(name, extension);
}

/// The vault is searched for the query as it is written. A quotation mark in it
/// is written so that the shell takes it for itself, wherever it stands.
pub proof fn law_searches_quote_the_query(before: Seq<char>, after: Seq<char>)
    requires
        forall|k: int| 0 <= k < before.len() ==> #[trigger] before[k] != '\'',
        forall|k: int| 0 <= k < after.len() ==> #[trigger] after[k] != '\'',
    ensures
        ({
            let start = "find /sharedssd/vault -name '*.md' -exec grep -li -m1 '"@;
            let end = "' {} \\; 2>/dev/null | head -8"@;
            &&& vault_search_spec(before) == start + before + end
            &&& vault_search_spec(before.push('\'') + after) == start + (before + "'\\''"@ + after)
                + end
        }),
{
    let mark = seq!['\''];
    let with = "'\\''"@;
    law_replacing_spares(before, '\'', with);
    law_replacing_spares(after, '\'', with);
    law_replacing_goes_on(before, mark, '\'', with);
    law_replacing_goes_on(before + mark, after, '\'', with);
    assert(before.push('\'') + after =~= before + mark + after);
}

} // verus!
