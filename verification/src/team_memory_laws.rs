//! What the guard of the team's session log lets through, and what it refuses,
//! said of the log's own characters and lines.

use vstd::prelude::*;

use crate::paths::{components_spec, steps_spec};
use crate::team_memory::{
    bullets, entries_of, entry_problem, filled_lines, first_problem, has_session_id, heading_at,
    headings_below, is_bullet, is_session_id, is_session_log, lemma_headings, line_groups,
    normal_entries, normalized, one_if, repeats_entry, sections, update_problem, TeamMemoryError,
};
use crate::text::{
    byte_len_spec, fields_spec, has_infix, has_prefix, is_white, join_spec, lemma_byte_len_add,
    lines_spec, lower, match_at, trim_class_spec, trim_spec, trim_start_spec, words_spec, CharClass,
};
use crate::text_laws::{
    law_characters_take_bytes, law_dividers_divide, law_fields_are_parts, law_front_trimmed,
    law_joined_words_are_found_again, law_parts_of_parts, law_trimmed, law_trimming_spares,
    law_undivided_texts, law_words_are_parts, lemma_lower_word,
};

verus! {

// ---------------------------------------------------------------------------
// Repeated entries
// ---------------------------------------------------------------------------

/// Whether a line that starts here begins with two number signs and a space.
pub open spec fn heads_a_line(s: Seq<char>, i: int) -> bool {
    &&& 0 <= i
    &&& i + 3 <= s.len()
    &&& s[i] == '#' && s[i + 1] == '#' && s[i + 2] == ' '
    &&& i == 0 || s[i - 1] == '\n'
}

/// Whether an entry of the log stands from `a` to `b`: its heading, and all that
/// follows up to the next heading or the end.
pub open spec fn entry_stands(s: Seq<char>, a: int, b: int) -> bool {
    &&& heads_a_line(s, a)
    &&& a < b <= s.len()
    &&& b == s.len() || heads_a_line(s, b)
    &&& forall|k: int| a < k < b ==> !#[trigger] heads_a_line(s, k)
}

/// Whether this text is an entry of the log.
pub open spec fn is_entry(s: Seq<char>, entry: Seq<char>) -> bool {
    exists|a: int, b: int| #[trigger] entry_stands(s, a, b) && entry == s.subrange(a, b)
}

/// Whether two texts have the same words in the same order, in any case of
/// letters and with any white space between them.
pub open spec fn same_words(a: Seq<char>, b: Seq<char>) -> bool {
    &&& words_spec(a).len() == words_spec(b).len()
    &&& forall|k: int|
        0 <= k < words_spec(a).len() ==> lower(#[trigger] words_spec(a)[k]) == lower(
            words_spec(b)[k],
        )
}

/// Whether this text is what a change adds: it follows the old content, or is
/// the whole content where that does not go on from the old one.
pub open spec fn is_added(
    old_content: Seq<char>,
    new_content: Seq<char>,
    added: Seq<char>,
) -> bool {
    ||| new_content == old_content + added
    ||| added == new_content && !has_prefix(new_content, old_content)
}

proof fn lemma_heading(s: Seq<char>, i: int)
    ensures
        heading_at(s, i) == heads_a_line(s, i),
{
    reveal_strlit("## ");
    if 0 <= i && i + 3 <= s.len() {
        let three = s.subrange(i, i + 3);
        assert(three[0] == s[i] && three[1] == s[i + 1] && three[2] == s[i + 2]);
        if heads_a_line(s, i) {
            assert(three =~= "## "@);
        }
    }
}

proof fn lemma_headings_found(s: Seq<char>, n: int)
    requires
        n <= s.len(),
    ensures
        forall|k: int|
            0 <= k < headings_below(s, n).len() ==> heads_a_line(
                s,
                #[trigger] headings_below(s, n)[k],
            ),
        forall|i: int|
            0 <= i < n && #[trigger] heads_a_line(s, i) ==> headings_below(s, n).contains(i),
    decreases n,
{
    if n > 0 {
        lemma_headings_found(s, n - 1);
        lemma_heading(s, n - 1);
        let before = headings_below(s, n - 1);
        let after = headings_below(s, n);
        assert forall|k: int| 0 <= k < after.len() implies heads_a_line(s, #[trigger] after[k]) by {
            if k < before.len() {
                assert(after[k] == before[k]);
            }
        }
        assert forall|i: int| 0 <= i < n && #[trigger] heads_a_line(s, i) implies after.contains(
            i,
        ) by {
            if i < n - 1 {
                assert(before.contains(i));
                let k = choose|k: int| 0 <= k < before.len() && before[k] == i;
                assert(after[k] == i);
            } else {
                assert(after[before.len() as int] == i);
            }
        }
    }
}

proof fn lemma_entry_stands(s: Seq<char>, k: int) -> (ends: (int, int))
    requires
        0 <= k < entries_of(s).len(),
    ensures
        entry_stands(s, ends.0, ends.1),
        entries_of(s)[k] == s.subrange(ends.0, ends.1),
{
    let starts = headings_below(s, s.len() as int);
    lemma_headings(s, s.len() as int);
    lemma_headings_found(s, s.len() as int);
    let a = starts[k];
    let b = if k + 1 < starts.len() {
        starts[k + 1]
    } else {
        s.len() as int
    };
    assert forall|m: int| a < m < b implies !#[trigger] heads_a_line(s, m) by {
        if heads_a_line(s, m) {
            assert(starts.contains(m));
            let j = choose|j: int| 0 <= j < starts.len() && starts[j] == m;
            if j < k {
                assert(starts[j] < starts[k]);
            } else if j > k + 1 {
                assert(starts[k + 1] < starts[j]);
            }
        }
    }
    (a, b)
}

proof fn lemma_entry_found(s: Seq<char>, a: int, b: int)
    requires
        entry_stands(s, a, b),
    ensures
        entries_of(s).contains(s.subrange(a, b)),
{
    let starts = headings_below(s, s.len() as int);
    lemma_headings(s, s.len() as int);
    lemma_headings_found(s, s.len() as int);
    assert(starts.contains(a));
    let k = choose|k: int| 0 <= k < starts.len() && starts[k] == a;
    if b < s.len() {
        assert(starts.contains(b));
        let j = choose|j: int| 0 <= j < starts.len() && starts[j] == b;
        if j < k {
            assert(starts[j] < starts[k]);
        } else if j > k + 1 {
            assert(starts[k] < starts[k + 1] < starts[j]);
            assert(heads_a_line(s, starts[k + 1]));
        }
        assert(j == k + 1);
    } else if k + 1 < starts.len() {
        assert(starts[k] < starts[k + 1]);
        assert(heads_a_line(s, starts[k + 1]));
    }
    assert(entries_of(s)[k] == s.subrange(a, b));
}

/// The entries of a log are the texts from each heading to the next, and none
/// is left out.
pub proof fn law_entries_are_what_stands(s: Seq<char>)
    ensures
        forall|k: int|
            0 <= k < entries_of(s).len() ==> is_entry(s, #[trigger] entries_of(s)[k]),
        forall|a: int, b: int| #[trigger]
            entry_stands(s, a, b) ==> entries_of(s).contains(s.subrange(a, b)),
{
    assert forall|k: int| 0 <= k < entries_of(s).len() implies is_entry(
        s,
        #[trigger] entries_of(s)[k],
    ) by {
        let ends = lemma_entry_stands(s, k);
        assert(entry_stands(s, ends.0, ends.1));
    }
    assert forall|a: int, b: int| #[trigger] entry_stands(s, a, b) implies entries_of(s).contains(
        s.subrange(a, b),
    ) by {
        lemma_entry_found(s, a, b);
    }
}

proof fn lemma_small_words(text: Seq<char>)
    ensures
        ({
            let small = words_spec(text).map_values(|w: Seq<char>| lower(w));
            &&& forall|k: int| 0 <= k < small.len() ==> (#[trigger] small[k]).len() > 0
            &&& forall|k: int, c: int|
                #![trigger small[k][c]]
                0 <= k < small.len() && 0 <= c < small[k].len() ==> !is_white(small[k][c])
            &&& words_spec(normalized(text)) == small
        }),
{
    law_words_are_parts(text);
    let all = words_spec(text);
    let small = all.map_values(|w: Seq<char>| lower(w));
    assert forall|k: int| 0 <= k < small.len() implies (#[trigger] small[k]).len() > 0 by {
        assert(all[k].len() > 0);
    }
    assert forall|k: int, c: int|
        #![trigger small[k][c]]
        0 <= k < small.len() && 0 <= c < small[k].len() implies !is_white(small[k][c]) by {
        assert forall|d: int| 0 <= d < all[k].len() implies !is_white(#[trigger] all[k][d]) by {}
        lemma_lower_word(all[k]);
    }
    law_joined_words_are_found_again(small);
}

/// Two texts have the same normal form exactly where they have the same words.
pub proof fn law_normal_forms_tell_words(a: Seq<char>, b: Seq<char>)
    ensures
        normalized(a) == normalized(b) <==> same_words(a, b),
{
    lemma_small_words(a);
    lemma_small_words(b);
    let x = words_spec(a).map_values(|w: Seq<char>| lower(w));
    let y = words_spec(b).map_values(|w: Seq<char>| lower(w));
    if normalized(a) == normalized(b) {
        assert(x == y);
        assert forall|k: int| 0 <= k < words_spec(a).len() implies lower(
            #[trigger] words_spec(a)[k],
        ) == lower(words_spec(b)[k]) by {
            assert(x[k] == y[k]);
        }
    }
    if same_words(a, b) {
        assert(x =~= y);
    }
}

proof fn lemma_entry_counts(s: Seq<char>, a: int, b: int)
    requires
        entry_stands(s, a, b),
    ensures
        normalized(s.subrange(a, b)).len() > 0,
        trim_spec(s).len() > 0,
{
    let entry = s.subrange(a, b);
    law_trimmed(s, CharClass::White);
    assert(!CharClass::White.has(s[a]));
    assert(entry[0] == s[a]);
    law_words_are_parts(entry);
    assert(words_spec(entry).len() > 0);
    lemma_small_words(entry);
    let none = Seq::<char>::empty();
    if normalized(entry).len() == 0 {
        assert(normalized(entry) =~= none);
        law_words_are_parts(none);
        if words_spec(none).len() > 0 {
            let w = words_spec(none)[0];
            assert(has_infix(none, w));
            let i = choose|i: int| match_at(none, w, i);
            assert(i + w.len() <= 0);
        }
    }
}

proof fn lemma_repeats(old_content: Seq<char>, added: Seq<char>)
    ensures
        repeats_entry(old_content, added) <==> exists|a: int, b: int, c: int, d: int|
            #![trigger entry_stands(old_content, a, b), entry_stands(added, c, d)]
            entry_stands(old_content, a, b) && entry_stands(added, c, d) && same_words(
                old_content.subrange(a, b),
                added.subrange(c, d),
            ),
{
    law_entries_are_what_stands(old_content);
    law_entries_are_what_stands(added);
    let olds = entries_of(old_content);
    let news = entries_of(added);
    let old_forms = normal_entries(old_content);
    let new_forms = normal_entries(added);
    if repeats_entry(old_content, added) {
        let j = choose|j: int|
            0 <= j < new_forms.len() && (#[trigger] new_forms[j]).len() > 0 && old_forms.contains(
                new_forms[j],
            );
        let i = choose|i: int| 0 <= i < old_forms.len() && old_forms[i] == new_forms[j];
        assert(normalized(olds[i]) == normalized(news[j]));
        let (a, b) = choose|a: int, b: int|
            #[trigger] entry_stands(old_content, a, b) && olds[i] == old_content.subrange(a, b);
        let (c, d) = choose|c: int, d: int|
            #[trigger] entry_stands(added, c, d) && news[j] == added.subrange(c, d);
        law_normal_forms_tell_words(old_content.subrange(a, b), added.subrange(c, d));
        assert(entry_stands(old_content, a, b) && entry_stands(added, c, d));
    }
    if exists|a: int, b: int, c: int, d: int|
        #![trigger entry_stands(old_content, a, b), entry_stands(added, c, d)]
        entry_stands(old_content, a, b) && entry_stands(added, c, d) && same_words(
            old_content.subrange(a, b),
            added.subrange(c, d),
        ) {
        let (a, b, c, d) = choose|a: int, b: int, c: int, d: int|
            #![trigger entry_stands(old_content, a, b), entry_stands(added, c, d)]
            entry_stands(old_content, a, b) && entry_stands(added, c, d) && same_words(
                old_content.subrange(a, b),
                added.subrange(c, d),
            );
        law_normal_forms_tell_words(old_content.subrange(a, b), added.subrange(c, d));
        lemma_entry_counts(added, c, d);
        let i = choose|i: int| 0 <= i < olds.len() && olds[i] == old_content.subrange(a, b);
        let j = choose|j: int| 0 <= j < news.len() && news[j] == added.subrange(c, d);
        assert(olds.contains(old_content.subrange(a, b)));
        assert(news.contains(added.subrange(c, d)));
        assert(old_forms[i] == normalized(olds[i]));
        assert(new_forms[j] == normalized(news[j]));
        assert(old_forms[i] == new_forms[j]);
        assert(old_forms.contains(new_forms[j]));
        assert(new_forms[j].len() > 0);
    }
}

proof fn lemma_added(old_content: Seq<char>, new_content: Seq<char>, added: Seq<char>)
    requires
        is_added(old_content, new_content, added),
    ensures
        crate::team_memory::added_part(old_content, new_content) == added,
{
    if new_content == old_content + added {
        assert(new_content.subrange(0, old_content.len() as int) =~= old_content);
        assert(new_content.skip(old_content.len() as int) =~= added);
    }
}

proof fn lemma_repeating_is_not_blank(old_content: Seq<char>, added: Seq<char>)
    requires
        repeats_entry(old_content, added),
    ensures
        trim_spec(added).len() > 0,
{
    lemma_repeats(old_content, added);
    let (a, b, c, d) = choose|a: int, b: int, c: int, d: int|
        #![trigger entry_stands(old_content, a, b), entry_stands(added, c, d)]
        entry_stands(old_content, a, b) && entry_stands(added, c, d) && same_words(
            old_content.subrange(a, b),
            added.subrange(c, d),
        );
    lemma_entry_counts(added, c, d);
}

proof fn lemma_accepted_repeats_nothing(
    path: Seq<char>,
    old_content: Seq<char>,
    new_content: Seq<char>,
    added: Seq<char>,
    writer_allowed: bool,
)
    requires
        is_session_log(path),
        update_problem(path, old_content, new_content, writer_allowed) is None,
        is_added(old_content, new_content, added),
    ensures
        !repeats_entry(old_content, added),
{
    lemma_added(old_content, new_content, added);
    if repeats_entry(old_content, added) {
        lemma_repeating_is_not_blank(old_content, added);
    }
}

/// No entry of an accepted change repeats one of the old log. Wherever the two
/// entries stand, their words differ, and so do their normal forms.
pub proof fn law_accepted_entries_are_new(
    path: Seq<char>,
    old_content: Seq<char>,
    new_content: Seq<char>,
    added: Seq<char>,
    writer_allowed: bool,
)
    requires
        is_session_log(path),
        update_problem(path, old_content, new_content, writer_allowed) is None,
        is_added(old_content, new_content, added),
    ensures
        forall|a: int, b: int, c: int, d: int|
            #![trigger entry_stands(old_content, a, b), entry_stands(added, c, d)]
            entry_stands(old_content, a, b) && entry_stands(added, c, d) ==> !same_words(
                old_content.subrange(a, b),
                added.subrange(c, d),
            ) && normalized(old_content.subrange(a, b)) != normalized(added.subrange(c, d)),
        forall|i: int, j: int|
            0 <= i < entries_of(old_content).len() && 0 <= j < entries_of(added).len()
                ==> normalized(#[trigger] entries_of(old_content)[i]) != normalized(
                #[trigger] entries_of(added)[j],
            ),
{
    lemma_accepted_repeats_nothing(path, old_content, new_content, added, writer_allowed);
    lemma_repeats(old_content, added);
    law_entries_are_what_stands(old_content);
    law_entries_are_what_stands(added);
    assert forall|a: int, b: int, c: int, d: int|
        #![trigger entry_stands(old_content, a, b), entry_stands(added, c, d)]
        entry_stands(old_content, a, b) && entry_stands(added, c, d) implies !same_words(
        old_content.subrange(a, b),
        added.subrange(c, d),
    ) && normalized(old_content.subrange(a, b)) != normalized(added.subrange(c, d)) by {
        law_normal_forms_tell_words(old_content.subrange(a, b), added.subrange(c, d));
    }
    assert forall|i: int, j: int|
        0 <= i < entries_of(old_content).len() && 0 <= j < entries_of(added).len() implies normalized(
        #[trigger] entries_of(old_content)[i],
    ) != normalized(#[trigger] entries_of(added)[j]) by {
        let (a, b) = choose|a: int, b: int| #[trigger]
            entry_stands(old_content, a, b) && entries_of(old_content)[i] == old_content.subrange(
                a,
                b,
            );
        let (c, d) = choose|c: int, d: int| #[trigger]
            entry_stands(added, c, d) && entries_of(added)[j] == added.subrange(c, d);
        assert(entry_stands(old_content, a, b) && entry_stands(added, c, d));
    }
}

/// A change is refused as a repetition only where it adds an entry whose words
/// are those of an entry of the old log.
pub proof fn law_only_repetitions_are_refused_as_such(
    path: Seq<char>,
    old_content: Seq<char>,
    new_content: Seq<char>,
    added: Seq<char>,
    writer_allowed: bool,
)
    requires
        update_problem(path, old_content, new_content, writer_allowed) == Some(
            TeamMemoryError::DuplicateEntry,
        ),
        is_added(old_content, new_content, added),
    ensures
        exists|a: int, b: int, c: int, d: int|
            #![trigger entry_stands(old_content, a, b), entry_stands(added, c, d)]
            entry_stands(old_content, a, b) && entry_stands(added, c, d) && same_words(
                old_content.subrange(a, b),
                added.subrange(c, d),
            ),
{
    lemma_added(old_content, new_content, added);
    lemma_repeats(old_content, added);
    let groups = line_groups(lines_spec(added));
    if first_problem(groups) is Some {
        lemma_problem_is_of_an_entry(groups);
    }
}

proof fn lemma_problem_is_of_an_entry(entries: Seq<Seq<Seq<char>>>)
    ensures
        first_problem(entries) is Some ==> exists|i: int|
            0 <= i < entries.len() && #[trigger] entry_problem(entries[i]) == first_problem(entries),
        first_problem(entries) is None ==> forall|i: int|
            0 <= i < entries.len() ==> #[trigger] entry_problem(entries[i]) is None,
        first_problem(entries) != Some(TeamMemoryError::DuplicateEntry),
    decreases entries.len(),
{
    if entries.len() > 0 && entry_problem(entries[0]) is None {
        let rest = entries.drop_first();
        lemma_problem_is_of_an_entry(rest);
        if first_problem(rest) is Some {
            let i = choose|i: int|
                0 <= i < rest.len() && #[trigger] entry_problem(rest[i]) == first_problem(rest);
            assert(entries[i + 1] == rest[i]);
            assert(entry_problem(entries[i + 1]) == first_problem(entries));
        } else {
            assert forall|i: int| 0 <= i < entries.len() implies #[trigger] entry_problem(
                entries[i],
            ) is None by {
                if i > 0 {
                    assert(entries[i] == rest[i - 1]);
                    assert(entry_problem(rest[i - 1]) is None);
                }
            }
        }
    }
}

// ---------------------------------------------------------------------------
// Substance
// ---------------------------------------------------------------------------

/// Whether a line begins with two number signs and a space.
pub open spec fn is_heading(line: Seq<char>) -> bool {
    line.len() >= 3 && line[0] == '#' && line[1] == '#' && line[2] == ' '
}

/// Whether an entry takes up the lines from `i` to `j`: from a heading, or from
/// the first line, to the next heading or the end.
pub open spec fn entry_takes(lines: Seq<Seq<char>>, i: int, j: int) -> bool {
    &&& 0 <= i < j <= lines.len()
    &&& i == 0 || is_heading(lines[i])
    &&& j == lines.len() || is_heading(lines[j])
    &&& forall|k: int| i < k < j ==> !is_heading(#[trigger] lines[k])
}

/// Whether a line holds more than white space.
pub open spec fn says_something(line: Seq<char>) -> bool {
    exists|c: int| 0 <= c < line.len() && !is_white(#[trigger] line[c])
}

/// Whether a hyphen and a space follow the white space that a line starts with.
pub open spec fn makes_a_point(line: Seq<char>) -> bool {
    exists|n: int|
        0 <= n && n + 1 < line.len() && #[trigger] line[n] == '-' && line[n + 1] == ' ' && (forall|
            k: int,
        |
            0 <= k < n ==> is_white(#[trigger] line[k]))
}

/// The names of the sections that an entry may have.
pub open spec fn section_names() -> Seq<Seq<char>> {
    seq![
        "summary"@,
        "what was done"@,
        "completed work"@,
        "changes"@,
        "decisions"@,
        "problems"@,
        "files"@,
        "validation"@,
        "next steps"@,
        "next suggested steps"@,
    ]
}

/// Whether a text names two sections at least, in any case of letters.
pub open spec fn names_two_sections(text: Seq<char>) -> bool {
    exists|p: int, q: int|
        0 <= p < q < section_names().len() && has_infix(
            lower(text),
            #[trigger] section_names()[p],
        ) && has_infix(lower(text), #[trigger] section_names()[q])
}

/// Whether an entry is worth keeping: five lines that say something, two points
/// and two named sections.
pub open spec fn is_substantive(entry: Seq<Seq<char>>) -> bool {
    &&& entry.filter(|line: Seq<char>| says_something(line)).len() >= 5
    &&& entry.filter(|line: Seq<char>| makes_a_point(line)).len() >= 2
    &&& names_two_sections(join_spec(entry, "\n"@))
}

proof fn lemma_says(line: Seq<char>)
    ensures
        trim_spec(line).len() > 0 <==> says_something(line),
{
    law_trimmed(line, CharClass::White);
    if trim_spec(line).len() > 0 {
        let k = choose|k: int| 0 <= k < line.len() && !CharClass::White.has(#[trigger] line[k]);
        assert(!is_white(line[k]));
    }
    if says_something(line) {
        let c = choose|c: int| 0 <= c < line.len() && !is_white(#[trigger] line[c]);
        assert(!CharClass::White.has(line[c]));
    }
}

proof fn lemma_point(line: Seq<char>)
    ensures
        is_bullet(line) <==> makes_a_point(line),
{
    reveal_strlit("- ");
    let rest = trim_start_spec(line, CharClass::White);
    law_front_trimmed(line, CharClass::White);
    let n = line.len() - rest.len();
    if is_bullet(line) {
        let two = rest.subrange(0, 2);
        assert(two == "- "@);
        assert(two[0] == rest[0] && two[1] == rest[1]);
        assert(line[n] == rest[0] && line[n + 1] == rest[1]);
        assert forall|k: int| 0 <= k < n implies is_white(#[trigger] line[k]) by {
            assert(CharClass::White.has(line[k]));
        }
        assert(makes_a_point(line));
    }
    if makes_a_point(line) {
        let m = choose|m: int|
            0 <= m && m + 1 < line.len() && #[trigger] line[m] == '-' && line[m + 1] == ' ' && (
            forall|k: int| 0 <= k < m ==> is_white(#[trigger] line[k]));
        if m < n {
            assert(CharClass::White.has(line[m]));
            assert(is_white('-'));
        } else if n < m {
            assert(is_white(line[n]));
            assert(rest[0] == line[n]);
            assert(rest.len() > 0);
        }
        assert(m == n);
        assert(rest[0] == line[m] && rest[1] == line[m + 1]);
        assert(rest.subrange(0, 2) =~= "- "@);
    }
}

proof fn lemma_counts(entry: Seq<Seq<char>>)
    ensures
        filled_lines(entry) == entry.filter(|line: Seq<char>| says_something(line)).len(),
        bullets(entry) == entry.filter(|line: Seq<char>| makes_a_point(line)).len(),
    decreases entry.len(),
{
    reveal(Seq::filter);
    if entry.len() > 0 {
        lemma_counts(entry.drop_last());
        lemma_says(entry.last());
        lemma_point(entry.last());
    }
}

proof fn lemma_sections(text: Seq<char>)
    ensures
        sections(lower(text)) >= 2 <==> names_two_sections(text),
{
    let names = section_names();
    let small = lower(text);
    assert(names[0] == "summary"@);
    assert(names[1] == "what was done"@);
    assert(names[2] == "completed work"@);
    assert(names[3] == "changes"@);
    assert(names[4] == "decisions"@);
    assert(names[5] == "problems"@);
    assert(names[6] == "files"@);
    assert(names[7] == "validation"@);
    assert(names[8] == "next steps"@);
    assert(names[9] == "next suggested steps"@);
    let sum = one_if(has_infix(small, names[0])) + one_if(has_infix(small, names[1])) + one_if(
        has_infix(small, names[2]),
    ) + one_if(has_infix(small, names[3])) + one_if(has_infix(small, names[4])) + one_if(
        has_infix(small, names[5]),
    ) + one_if(has_infix(small, names[6])) + one_if(has_infix(small, names[7])) + one_if(
        has_infix(small, names[8]),
    ) + one_if(has_infix(small, names[9]));
    assert(sections(small) == sum);
    if names_two_sections(text) {
        let (p, q) = choose|p: int, q: int|
            0 <= p < q < names.len() && has_infix(small, #[trigger] names[p]) && has_infix(
                small,
                #[trigger] names[q],
            );
        assert(has_infix(small, names[p]) && has_infix(small, names[q]));
    }
}

proof fn lemma_line_heading(line: Seq<char>)
    ensures
        has_prefix(line, "## "@) <==> is_heading(line),
{
    reveal_strlit("## ");
    if line.len() >= 3 {
        let three = line.subrange(0, 3);
        assert(three[0] == line[0] && three[1] == line[1] && three[2] == line[2]);
        if is_heading(line) {
            assert(three =~= "## "@);
        }
    }
}

/// Whether this group of lines is an entry.
pub open spec fn is_line_entry(lines: Seq<Seq<char>>, group: Seq<Seq<char>>) -> bool {
    exists|i: int, j: int| #[trigger] entry_takes(lines, i, j) && group == lines.subrange(i, j)
}

/// The lines at which an entry begins.
spec fn openings(lines: Seq<Seq<char>>) -> Seq<int>
    decreases lines.len(),
{
    if lines.len() == 0 {
        Seq::empty()
    } else if lines.len() == 1 || is_heading(lines.last()) {
        openings(lines.drop_last()).push(lines.len() - 1)
    } else {
        openings(lines.drop_last())
    }
}

proof fn lemma_openings(lines: Seq<Seq<char>>)
    ensures
        lines.len() > 0 ==> openings(lines).len() > 0 && openings(lines)[0] == 0,
        forall|g: int|
            0 <= g < openings(lines).len() ==> 0 <= #[trigger] openings(lines)[g] < lines.len()
                && (openings(lines)[g] == 0 || is_heading(lines[openings(lines)[g]])),
        forall|g: int, h: int|
            0 <= g < h < openings(lines).len() ==> openings(lines)[g] < openings(lines)[h],
        forall|k: int|
            0 <= k < lines.len() && (k == 0 || is_heading(#[trigger] lines[k])) ==> openings(
                lines,
            ).contains(k),
    decreases lines.len(),
{
    if lines.len() > 0 {
        let front = lines.drop_last();
        lemma_openings(front);
        let before = openings(front);
        let after = openings(lines);
        assert forall|g: int| 0 <= g < after.len() implies 0 <= #[trigger] after[g] < lines.len()
            && (after[g] == 0 || is_heading(lines[after[g]])) by {
            if g < before.len() {
                assert(after[g] == before[g]);
                assert(lines[before[g]] == front[before[g]]);
            }
        }
        assert forall|g: int, h: int| 0 <= g < h < after.len() implies after[g] < after[h] by {
            assert(after[g] == before[g]);
            if h < before.len() {
                assert(after[h] == before[h]);
            }
        }
        assert forall|k: int|
            0 <= k < lines.len() && (k == 0 || is_heading(#[trigger] lines[k])) implies after.contains(
            k,
        ) by {
            if k < front.len() {
                assert(front[k] == lines[k]);
                assert(before.contains(k));
                let g = choose|g: int| 0 <= g < before.len() && before[g] == k;
                assert(after[g] == k);
            } else {
                assert(after[before.len() as int] == k);
            }
        }
        if front.len() > 0 {
            assert(after[0] == before[0]);
        }
    }
}

/// Where the entry of these lines ends.
spec fn closing(lines: Seq<Seq<char>>, g: int) -> int {
    if g + 1 < openings(lines).len() {
        openings(lines)[g + 1]
    } else {
        lines.len() as int
    }
}

proof fn lemma_groups(lines: Seq<Seq<char>>)
    ensures
        line_groups(lines).len() == openings(lines).len(),
        forall|g: int|
            0 <= g < line_groups(lines).len() ==> #[trigger] line_groups(lines)[g]
                == lines.subrange(openings(lines)[g], closing(lines, g)),
    decreases lines.len(),
{
    if lines.len() > 0 {
        let n = lines.len() as int;
        let front = lines.drop_last();
        lemma_groups(front);
        lemma_openings(front);
        lemma_openings(lines);
        lemma_line_heading(lines.last());
        let before = line_groups(front);
        let after = line_groups(lines);
        assert forall|g: int| 0 <= g < after.len() implies #[trigger] after[g] == lines.subrange(
            openings(lines)[g],
            closing(lines, g),
        ) by {
            if g < after.len() - 1 {
                assert(after[g] == before[g]);
                assert(openings(lines)[g] == openings(front)[g]);
                assert(closing(lines, g) == closing(front, g));
                assert(closing(front, g) <= front.len());
                assert(lines.subrange(openings(lines)[g], closing(lines, g)) =~= front.subrange(
                    openings(front)[g],
                    closing(front, g),
                ));
            } else if before.len() == 0 || is_heading(lines.last()) {
                assert(after[g] =~= lines.subrange(n - 1, n));
            } else {
                assert(openings(lines)[g] == openings(front)[g]);
                assert(before.last() == front.subrange(openings(front)[g], n - 1));
                assert(after[g] =~= lines.subrange(openings(lines)[g], n));
            }
        }
    }
}

proof fn lemma_group_taken(lines: Seq<Seq<char>>, g: int) -> (ends: (int, int))
    requires
        0 <= g < line_groups(lines).len(),
    ensures
        entry_takes(lines, ends.0, ends.1),
        line_groups(lines)[g] == lines.subrange(ends.0, ends.1),
{
    lemma_groups(lines);
    lemma_openings(lines);
    let all = openings(lines);
    let i = all[g];
    let j = closing(lines, g);
    assert forall|k: int| i < k < j implies !is_heading(#[trigger] lines[k]) by {
        if is_heading(lines[k]) {
            assert(all.contains(k));
            let h = choose|h: int| 0 <= h < all.len() && all[h] == k;
            if h < g {
                assert(all[h] < all[g]);
            } else if h > g + 1 {
                assert(all[g + 1] < all[h]);
            }
        }
    }
    if g + 1 < all.len() {
        assert(all[g] < all[g + 1]);
    }
    (i, j)
}

proof fn lemma_taken_group(lines: Seq<Seq<char>>, i: int, j: int)
    requires
        entry_takes(lines, i, j),
    ensures
        line_groups(lines).contains(lines.subrange(i, j)),
{
    lemma_groups(lines);
    lemma_openings(lines);
    let all = openings(lines);
    assert(i == 0 || is_heading(lines[i]));
    assert(all.contains(i)) by {
        if i == 0 {
            assert(all[0] == 0);
        }
    }
    let g = choose|g: int| 0 <= g < all.len() && all[g] == i;
    if j < lines.len() {
        assert(all.contains(j));
        let h = choose|h: int| 0 <= h < all.len() && all[h] == j;
        if h < g {
            assert(all[h] < all[g]);
        } else if h > g + 1 {
            assert(all[g] < all[g + 1] < all[h]);
            assert(is_heading(lines[all[g + 1]]));
        }
        assert(h == g + 1);
    } else if g + 1 < all.len() {
        assert(all[g] < all[g + 1]);
        assert(is_heading(lines[all[g + 1]]));
    }
    assert(closing(lines, g) == j);
    assert(line_groups(lines)[g] == lines.subrange(i, j));
}

proof fn lemma_entry_problem(entry: Seq<Seq<char>>)
    ensures
        entry_problem(entry) == if entry.filter(|line: Seq<char>| says_something(line)).len()
            == 0 {
            None
        } else if entry.len() > 50 {
            Some(TeamMemoryError::EntryTooLong)
        } else if !is_substantive(entry) {
            Some(TeamMemoryError::EntryInsubstantial)
        } else {
            None::<TeamMemoryError>
        },
{
    lemma_counts(entry);
    lemma_sections(join_spec(entry, "\n"@));
}

/// Whether an entry is in order: blank, or short enough and worth keeping.
pub open spec fn is_in_order(entry: Seq<Seq<char>>) -> bool {
    entry.filter(|line: Seq<char>| says_something(line)).len() > 0 ==> entry.len() <= 50
        && is_substantive(entry)
}

/// Every entry of an accepted change is in order, wherever it stands.
pub proof fn law_accepted_entries_are_in_order(
    path: Seq<char>,
    old_content: Seq<char>,
    new_content: Seq<char>,
    added: Seq<char>,
    writer_allowed: bool,
    i: int,
    j: int,
)
    requires
        is_session_log(path),
        update_problem(path, old_content, new_content, writer_allowed) is None,
        is_added(old_content, new_content, added),
        says_something(added),
        entry_takes(lines_spec(added), i, j),
    ensures
        is_in_order(lines_spec(added).subrange(i, j)),
{
    lemma_added(old_content, new_content, added);
    lemma_says(added);
    let lines = lines_spec(added);
    let groups = line_groups(lines);
    lemma_problem_is_of_an_entry(groups);
    lemma_taken_group(lines, i, j);
    let g = choose|g: int| 0 <= g < groups.len() && groups[g] == lines.subrange(i, j);
    assert(entry_problem(groups[g]) is None);
    lemma_entry_problem(groups[g]);
}

/// A change is refused for an entry only where it adds an entry that is too
/// long, or one that is short enough and not worth keeping.
pub proof fn law_refused_entries_are_at_fault(
    path: Seq<char>,
    old_content: Seq<char>,
    new_content: Seq<char>,
    added: Seq<char>,
    writer_allowed: bool,
)
    requires
        is_added(old_content, new_content, added),
    ensures
        ({
            let lines = lines_spec(added);
            let problem = update_problem(path, old_content, new_content, writer_allowed);
            &&& problem == Some(TeamMemoryError::EntryTooLong) ==> exists|i: int, j: int|
                #[trigger] entry_takes(lines, i, j) && j - i > 50
            &&& problem == Some(TeamMemoryError::EntryInsubstantial) ==> exists|i: int, j: int|
                #[trigger] entry_takes(lines, i, j) && j - i <= 50 && !is_substantive(
                    lines.subrange(i, j),
                )
        }),
{
    lemma_added(old_content, new_content, added);
    let lines = lines_spec(added);
    let groups = line_groups(lines);
    let problem = update_problem(path, old_content, new_content, writer_allowed);
    lemma_problem_is_of_an_entry(groups);
    if problem == Some(TeamMemoryError::EntryTooLong) || problem == Some(
        TeamMemoryError::EntryInsubstantial,
    ) {
        let g = choose|g: int|
            0 <= g < groups.len() && #[trigger] entry_problem(groups[g]) == first_problem(groups);
        lemma_entry_problem(groups[g]);
        let ends = lemma_group_taken(lines, g);
        assert(entry_takes(lines, ends.0, ends.1));
    }
}

// ---------------------------------------------------------------------------
// What stands in the way
// ---------------------------------------------------------------------------

/// A change is refused for who makes it, for a stub, for a session's identifier
/// or for a link, in this order, and for nothing else before its entries are
/// looked at.
pub proof fn law_refusals_say_why(
    path: Seq<char>,
    old_content: Seq<char>,
    new_content: Seq<char>,
    writer_allowed: bool,
)
    requires
        is_session_log(path),
    ensures
        ({
            let problem = update_problem(path, old_content, new_content, writer_allowed);
            let small = lower(new_content);
            let stub = has_infix(small, "session ended"@);
            let link = has_infix(small, "transcript link"@) || has_infix(small, "/sessions/"@)
                || has_infix(small, "jcode://session"@);
            let named = has_session_id(new_content);
            &&& problem == Some(TeamMemoryError::WorkerWrite) <==> !writer_allowed
            &&& problem == Some(TeamMemoryError::SessionStub) <==> writer_allowed && stub
            &&& problem == Some(TeamMemoryError::SessionId) <==> writer_allowed && !stub && named
            &&& problem == Some(TeamMemoryError::SessionLink) <==> writer_allowed && !stub && !named
                && link
        }),
{
    let added = crate::team_memory::added_part(old_content, new_content);
    let groups = line_groups(lines_spec(added));
    lemma_problem_is_of_an_entry(groups);
    if first_problem(groups) is Some {
        let g = choose|g: int|
            0 <= g < groups.len() && #[trigger] entry_problem(groups[g]) == first_problem(groups);
        assert(entry_problem(groups[g]) == Some(TeamMemoryError::EntryTooLong) || entry_problem(
            groups[g],
        ) == Some(TeamMemoryError::EntryInsubstantial));
    }
}

/// Whether a character is a letter, a digit or an underscore.
pub open spec fn names_something(c: char) -> bool {
    'a' <= c <= 'z' || 'A' <= c <= 'Z' || '0' <= c <= '9' || c == '_'
}

/// Whether a word may end before or behind this character.
pub open spec fn ends_a_word(c: char) -> bool {
    is_white(c) || c == '*' || c == '`' || c == '(' || c == ')' || c == '[' || c == ']' || c == ','
}

proof fn lemma_word_alone(word: Seq<char>, after: Seq<char>)
    requires
        forall|k: int| 0 <= k < word.len() ==> names_something(#[trigger] word[k]),
        after.len() > 0 ==> ends_a_word(after[0]),
    ensures
        fields_spec(word + after, CharClass::WordBreak)[0] == word,
        fields_spec(word + after, CharClass::WordBreak).len() > 0,
{
    let class = CharClass::WordBreak;
    assert forall|k: int| 0 <= k < word.len() implies !class.has(#[trigger] word[k]) by {
        assert(names_something(word[k]));
    }
    law_undivided_texts(word, class);
    if after.len() == 0 {
        assert(word + after =~= word);
    } else {
        law_dividers_divide(word, after[0], after.drop_first(), class);
        assert(word.push(after[0]) + after.drop_first() =~= word + after);
    }
}

/// A text in which a session's identifier stands as a word holds one, whatever
/// stands around it: `session_` and seven more letters, digits or underscores.
pub proof fn law_session_ids_are_seen(before: Seq<char>, id: Seq<char>, after: Seq<char>)
    requires
        id.len() >= 7,
        forall|k: int| 0 <= k < id.len() ==> names_something(#[trigger] id[k]),
        before.len() > 0 ==> ends_a_word(before.last()),
        after.len() > 0 ==> ends_a_word(after[0]),
    ensures
        has_session_id(before + ("session_"@ + id) + after),
{
    reveal_strlit("session_");
    let class = CharClass::WordBreak;
    let word = "session_"@ + id;
    let text = before + word + after;
    assert forall|k: int| 0 <= k < word.len() implies names_something(#[trigger] word[k]) by {
        if k >= 8 {
            assert(word[k] == id[k - 8]);
        }
    }
    lemma_word_alone(word, after);
    let rest = fields_spec(word + after, class);
    let all = fields_spec(text, class);
    let at: int = if before.len() == 0 {
        assert(text =~= word + after);
        0
    } else {
        law_dividers_divide(before.drop_last(), before.last(), word + after, class);
        assert(before.drop_last().push(before.last()) + (word + after) =~= text);
        fields_spec(before.drop_last(), class).len() as int
    };
    assert(all[at] == word);
    assert(names_something(word[0]) && names_something(word[word.len() - 1]));
    law_trimming_spares(word, CharClass::NonIdentifier);
    lemma_byte_len_add("session_"@, id);
    law_characters_take_bytes(id);
    assert(word.subrange(0, 8) =~= "session_"@);
    assert(is_session_id(all[at]));
}

/// A text that holds a session's identifier has `session_` in it, and more than
/// six bytes follow.
pub proof fn law_session_ids_are_there(text: Seq<char>)
    requires
        has_session_id(text),
    ensures
        exists|id: Seq<char>|
            has_infix(text, "session_"@ + id) && byte_len_spec(id) > 6,
{
    let all = fields_spec(text, CharClass::WordBreak);
    let i = choose|i: int| 0 <= i < all.len() && is_session_id(#[trigger] all[i]);
    let bare = trim_class_spec(all[i], CharClass::NonIdentifier);
    law_fields_are_parts(text, CharClass::WordBreak);
    law_trimmed(all[i], CharClass::NonIdentifier);
    law_parts_of_parts(text, all[i], bare);
    let id = bare.skip("session_"@.len() as int);
    assert("session_"@ + id =~= bare);
    lemma_byte_len_add("session_"@, id);
    assert(has_infix(text, "session_"@ + id));
}

// ---------------------------------------------------------------------------
// Which file it is
// ---------------------------------------------------------------------------

pub(crate) proof fn lemma_steps_add(a: Seq<Seq<char>>, b: Seq<Seq<char>>)
    ensures
        steps_spec(a + b) == steps_spec(a) + steps_spec(b),
    decreases b.len(),
{
    if b.len() == 0 {
        assert(a + b =~= a);
        assert(steps_spec(a) + steps_spec(b) =~= steps_spec(a));
    } else {
        lemma_steps_add(a, b.drop_last());
        assert((a + b).drop_last() =~= a + b.drop_last());
        assert(steps_spec(a + b) =~= steps_spec(a) + steps_spec(b));
    }
}

/// Whether this is a name in a directory: it is not empty, does not stay in
/// place, and has no slash in it.
pub open spec fn is_name(name: Seq<char>) -> bool {
    &&& name.len() > 0
    &&& name != "."@
    &&& forall|k: int| 0 <= k < name.len() ==> #[trigger] name[k] != '/'
}

pub(crate) proof fn lemma_name_steps(name: Seq<char>)
    requires
        is_name(name),
    ensures
        fields_spec(name, CharClass::Only('/')) == seq![name],
        steps_spec(seq![name]) == seq![name],
{
    assert forall|k: int| 0 <= k < name.len() implies !CharClass::Only('/').has(
        #[trigger] name[k],
    ) by {}
    law_undivided_texts(name, CharClass::Only('/'));
    let nothing = Seq::<Seq<char>>::empty();
    assert(seq![name].drop_last() =~= nothing);
    assert(steps_spec(nothing) =~= nothing);
    assert(steps_spec(seq![name]) =~= seq![name]);
}

/// Whether a file is guarded is told by its name and its directory's name, in
/// any case of letters and wherever that directory is.
pub proof fn law_the_log_is_told_by_two_names(dir: Seq<char>, parent: Seq<char>, file: Seq<char>)
    requires
        is_name(parent),
        is_name(file),
    ensures
        is_session_log(dir + "/"@ + parent + "/"@ + file) <==> lower(parent) == lower(
            "TEAM_MEMORY"@,
        ) && lower(file) == lower("SESSION_LOG.md"@),
        is_session_log(parent + "/"@ + file) <==> lower(parent) == lower("TEAM_MEMORY"@) && lower(
            file,
        ) == lower("SESSION_LOG.md"@),
{
    reveal_strlit("/");
    let class = CharClass::Only('/');
    let short = parent + "/"@ + file;
    let long = dir + "/"@ + parent + "/"@ + file;
    assert(short =~= parent.push('/') + file);
    assert(long =~= dir.push('/') + short);
    lemma_name_steps(parent);
    lemma_name_steps(file);
    law_dividers_divide(parent, '/', file, class);
    law_dividers_divide(dir, '/', short, class);
    let two = seq![parent] + seq![file];
    assert(fields_spec(short, class) == two);
    lemma_steps_add(seq![parent], seq![file]);
    lemma_steps_add(fields_spec(dir, class), two);
    let parts = components_spec(short);
    assert(parts[parts.len() - 2] == parent && parts[parts.len() - 1] == file);
    let more = components_spec(long);
    assert(more[more.len() - 2] == parent && more[more.len() - 1] == file);
}

} // verus!
