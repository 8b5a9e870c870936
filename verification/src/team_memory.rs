//! The guard of the team's session log: who may change it, and what an entry
//! must hold.

use vstd::prelude::*;

use crate::paths::{components, components_spec};
use crate::text::{
    byte_len, byte_len_spec, chars_of, contains, fields, fields_spec, has_infix, has_prefix,
    has_text, is_blank, join, join_spec, lines, lines_spec, lower, match_at, matches_at, same_text,
    starts_with, string_of, strip_prefix, to_lower, trim_class, trim_class_spec, trim_spec,
    trim_start_class, trim_start_spec, views, words, words_spec, CharClass,
};

verus! {

/// How many lines an entry may have.
pub const MAX_ENTRY_LINES: usize = 50;

/// Why a change of the log is refused.
#[derive(Debug, Clone, Copy, PartialEq, Eq, Structural)]
pub enum TeamMemoryError {
    WorkerWrite,
    SessionStub,
    SessionId,
    SessionLink,
    EntryTooLong,
    EntryInsubstantial,
    DuplicateEntry,
}

impl TeamMemoryError {
    pub open spec fn text(self) -> Seq<char> {
        match self {
            TeamMemoryError::WorkerWrite =>
                "Only the root or coordinator session may modify TEAM_MEMORY/SESSION_LOG.md; swarm workers must report findings to their coordinator"@,
            TeamMemoryError::SessionStub =>
                "TEAM_MEMORY entries must be substantive summaries; generic 'Session ended' stubs are forbidden"@,
            TeamMemoryError::SessionId => "TEAM_MEMORY must not contain Jcode session IDs"@,
            TeamMemoryError::SessionLink =>
                "TEAM_MEMORY must not contain transcript or session links"@,
            TeamMemoryError::EntryTooLong =>
                "Each TEAM_MEMORY session summary must be at most 50 lines"@,
            TeamMemoryError::EntryInsubstantial =>
                "TEAM_MEMORY entries must be substantive summaries with at least two named sections and two concrete bullet points"@,
            TeamMemoryError::DuplicateEntry =>
                "TEAM_MEMORY must not append duplicate task or session summaries"@,
        }
    }

    pub fn message(&self) -> (res: String)
        ensures
            res@ == self.text(),
    {
        match self {
            TeamMemoryError::WorkerWrite =>
                "Only the root or coordinator session may modify TEAM_MEMORY/SESSION_LOG.md; swarm workers must report findings to their coordinator".to_string(),
            TeamMemoryError::SessionStub =>
                "TEAM_MEMORY entries must be substantive summaries; generic 'Session ended' stubs are forbidden".to_string(),
            TeamMemoryError::SessionId =>
                "TEAM_MEMORY must not contain Jcode session IDs".to_string(),
            TeamMemoryError::SessionLink =>
                "TEAM_MEMORY must not contain transcript or session links".to_string(),
            TeamMemoryError::EntryTooLong =>
                "Each TEAM_MEMORY session summary must be at most 50 lines".to_string(),
            TeamMemoryError::EntryInsubstantial =>
                "TEAM_MEMORY entries must be substantive summaries with at least two named sections and two concrete bullet points".to_string(),
            TeamMemoryError::DuplicateEntry =>
                "TEAM_MEMORY must not append duplicate task or session summaries".to_string(),
        }
    }
}

// ---------------------------------------------------------------------------
// The file
// ---------------------------------------------------------------------------

/// Whether the path is that of a team's session log, in any case of letters.
pub open spec fn is_session_log(path: Seq<char>) -> bool {
    let parts = components_spec(path);
    &&& parts.len() >= 2
    &&& lower(parts[parts.len() - 2]) == lower("TEAM_MEMORY"@)
    &&& lower(parts[parts.len() - 1]) == lower("SESSION_LOG.md"@)
}

fn same_ignoring_case(a: &str, b: &str) -> (res: bool)
    ensures
        res == (lower(a@) == lower(b@)),
{
    same_text(to_lower(a).as_str(), to_lower(b).as_str())
}

pub fn is_team_memory_session_log(path: &str) -> (res: bool)
    ensures
        res == is_session_log(path@),
{
    let parts = components(path);
    let n = parts.len();
    assert(n >= 2 ==> components_spec(path@)[n - 2] == parts@[n - 2]@);
    assert(n >= 2 ==> components_spec(path@)[n - 1] == parts@[n - 1]@);
    n >= 2 && same_ignoring_case(parts[n - 2].as_str(), "TEAM_MEMORY") && same_ignoring_case(
        parts[n - 1].as_str(),
        "SESSION_LOG.md",
    )
}

// ---------------------------------------------------------------------------
// What the log must not hold
// ---------------------------------------------------------------------------

/// Whether a word, without what surrounds it, is the identifier of a session.
pub open spec fn is_session_id(word: Seq<char>) -> bool {
    let bare = trim_class_spec(word, CharClass::NonIdentifier);
    has_prefix(bare, "session_"@) && byte_len_spec(bare) > byte_len_spec("session_"@) + 6
}

/// Whether one of these words is the identifier of a session.
pub open spec fn any_session_id(all: Seq<Seq<char>>) -> bool {
    exists|i: int| 0 <= i < all.len() && is_session_id(#[trigger] all[i])
}

/// Whether a text holds the identifier of a session.
pub open spec fn has_session_id(text: Seq<char>) -> bool {
    any_session_id(fields_spec(text, CharClass::WordBreak))
}

pub fn contains_session_id(text: &str) -> (res: bool)
    ensures
        res == has_session_id(text@),
{
    let parts = fields(text, CharClass::WordBreak);
    let ghost all = fields_spec(text@, CharClass::WordBreak);
    let mut i: usize = 0;
    while i < parts.len()
        invariant
            i <= parts@.len(),
            all == fields_spec(text@, CharClass::WordBreak),
            views(parts@) == all,
            forall|k: int| 0 <= k < i ==> !is_session_id(#[trigger] all[k]),
        decreases parts@.len() - i,
    {
        assert(all[i as int] == parts@[i as int]@);
        let bare = trim_class(parts[i].as_str(), CharClass::NonIdentifier);
        let have = byte_len(bare.as_str());
        let base = byte_len("session_");
        if starts_with(bare.as_str(), "session_") && have > base && have - base > 6 {
            assert(is_session_id(all[i as int]));
            return true;
        }
        i += 1;
    }
    false
}

/// Whether a text in small letters links to a session or its transcript.
pub open spec fn has_session_link(lowered: Seq<char>) -> bool {
    has_infix(lowered, "transcript link"@) || has_infix(lowered, "/sessions/"@) || has_infix(
        lowered,
        "jcode://session"@,
    )
}

// ---------------------------------------------------------------------------
// Entries by line
// ---------------------------------------------------------------------------

/// The lines in groups: a heading begins another one.
pub open spec fn line_groups(all: Seq<Seq<char>>) -> Seq<Seq<Seq<char>>>
    decreases all.len(),
{
    if all.len() == 0 {
        Seq::empty()
    } else {
        let before = line_groups(all.drop_last());
        if before.len() == 0 || has_prefix(all.last(), "## "@) {
            before.push(seq![all.last()])
        } else {
            before.drop_last().push(before.last().push(all.last()))
        }
    }
}

/// How many lines hold more than white space.
pub open spec fn filled_lines(entry: Seq<Seq<char>>) -> nat
    decreases entry.len(),
{
    if entry.len() == 0 {
        0
    } else {
        filled_lines(entry.drop_last()) + if trim_spec(entry.last()).len() > 0 {
            1nat
        } else {
            0nat
        }
    }
}

/// Whether a line is a bullet point.
pub open spec fn is_bullet(line: Seq<char>) -> bool {
    has_prefix(trim_start_spec(line, CharClass::White), "- "@)
}

/// How many lines are bullet points.
pub open spec fn bullets(entry: Seq<Seq<char>>) -> nat
    decreases entry.len(),
{
    if entry.len() == 0 {
        0
    } else {
        bullets(entry.drop_last()) + if is_bullet(entry.last()) {
            1nat
        } else {
            0nat
        }
    }
}

/// One where the condition holds.
pub open spec fn one_if(b: bool) -> nat {
    if b {
        1
    } else {
        0
    }
}

/// How many of the known sections a text in small letters names.
pub open spec fn sections(text: Seq<char>) -> nat {
    one_if(has_infix(text, "summary"@)) + one_if(has_infix(text, "what was done"@)) + one_if(
        has_infix(text, "completed work"@),
    ) + one_if(has_infix(text, "changes"@)) + one_if(has_infix(text, "decisions"@)) + one_if(
        has_infix(text, "problems"@),
    ) + one_if(has_infix(text, "files"@)) + one_if(has_infix(text, "validation"@)) + one_if(
        has_infix(text, "next steps"@),
    ) + one_if(has_infix(text, "next suggested steps"@))
}

/// What is wrong with an entry. An entry of white space alone is no entry.
pub open spec fn entry_problem(entry: Seq<Seq<char>>) -> Option<TeamMemoryError> {
    let text = lower(join_spec(entry, "\n"@));
    if filled_lines(entry) == 0 {
        None
    } else if entry.len() > MAX_ENTRY_LINES {
        Some(TeamMemoryError::EntryTooLong)
    } else if filled_lines(entry) < 5 || bullets(entry) < 2 || sections(text) < 2 {
        Some(TeamMemoryError::EntryInsubstantial)
    } else {
        None
    }
}

/// What is wrong with the first of these entries that is not in order.
pub open spec fn first_problem(entries: Seq<Seq<Seq<char>>>) -> Option<TeamMemoryError>
    decreases entries.len(),
{
    if entries.len() == 0 {
        None
    } else if entry_problem(entries[0]) is Some {
        entry_problem(entries[0])
    } else {
        first_problem(entries.drop_first())
    }
}

pub open spec fn group_views(v: Seq<Vec<String>>) -> Seq<Seq<Seq<char>>> {
    v.map_values(|g: Vec<String>| views(g@))
}

fn group_lines(all: &Vec<String>) -> (res: Vec<Vec<String>>)
    ensures
        group_views(res@) == line_groups(views(all@)),
{
    let ghost texts = views(all@);
    let mut res: Vec<Vec<String>> = Vec::new();
    let mut i: usize = 0;
    assert(group_views(res@) =~= line_groups(texts.take(0)));
    while i < all.len()
        invariant
            i <= all@.len(),
            texts == views(all@),
            group_views(res@) == line_groups(texts.take(i as int)),
        decreases all@.len() - i,
    {
        let ghost done = group_views(res@);
        assert(texts.take(i + 1).drop_last() =~= texts.take(i as int));
        assert(texts.take(i + 1).last() == all@[i as int]@);
        if res.len() == 0 || starts_with(all[i].as_str(), "## ") {
            let mut group: Vec<String> = Vec::new();
            group.push(all[i].clone());
            let ghost one = views(group@);
            assert(one =~= seq![all@[i as int]@]);
            res.push(group);
            assert(group_views(res@) =~= done.push(one));
        } else {
            let mut group = res.pop().unwrap();
            let ghost before = views(group@);
            assert(before == done.last());
            assert(group_views(res@) =~= done.drop_last());
            group.push(all[i].clone());
            let ghost one = views(group@);
            assert(one =~= before.push(all@[i as int]@));
            let ghost rest = group_views(res@);
            res.push(group);
            assert(group_views(res@) =~= rest.push(one));
        }
        i += 1;
    }
    assert(texts.take(i as int) =~= texts);
    res
}

fn count_filled(entry: &Vec<String>) -> (res: usize)
    ensures
        res == filled_lines(views(entry@)),
{
    let ghost all = views(entry@);
    let mut n: usize = 0;
    let mut i: usize = 0;
    while i < entry.len()
        invariant
            n <= i <= entry@.len(),
            all == views(entry@),
            n == filled_lines(all.take(i as int)),
        decreases entry@.len() - i,
    {
        assert(all.take(i + 1).drop_last() =~= all.take(i as int));
        assert(all.take(i + 1).last() == entry@[i as int]@);
        if !is_blank(entry[i].as_str()) {
            n += 1;
        }
        i += 1;
    }
    assert(all.take(i as int) =~= all);
    n
}

fn count_bullets(entry: &Vec<String>) -> (res: usize)
    ensures
        res == bullets(views(entry@)),
{
    let ghost all = views(entry@);
    let mut n: usize = 0;
    let mut i: usize = 0;
    while i < entry.len()
        invariant
            n <= i <= entry@.len(),
            all == views(entry@),
            n == bullets(all.take(i as int)),
        decreases entry@.len() - i,
    {
        assert(all.take(i + 1).drop_last() =~= all.take(i as int));
        assert(all.take(i + 1).last() == entry@[i as int]@);
        if starts_with(trim_start_class(entry[i].as_str(), CharClass::White).as_str(), "- ") {
            n += 1;
        }
        i += 1;
    }
    assert(all.take(i as int) =~= all);
    n
}

fn number_if(b: bool) -> (res: u32)
    ensures
        res == one_if(b),
{
    if b {
        1
    } else {
        0
    }
}

fn count_sections(text: &str) -> (res: u32)
    ensures
        res == sections(text@),
{
    number_if(contains(text, "summary")) + number_if(contains(text, "what was done")) + number_if(
        contains(text, "completed work"),
    ) + number_if(contains(text, "changes")) + number_if(contains(text, "decisions")) + number_if(
        contains(text, "problems"),
    ) + number_if(contains(text, "files")) + number_if(contains(text, "validation")) + number_if(
        contains(text, "next steps"),
    ) + number_if(contains(text, "next suggested steps"))
}

fn check_entry(entry: &Vec<String>) -> (res: Option<TeamMemoryError>)
    ensures
        res == entry_problem(views(entry@)),
{
    let filled = count_filled(entry);
    if filled == 0 {
        return None;
    }
    assert(views(entry@).len() == entry@.len());
    if entry.len() > MAX_ENTRY_LINES {
        return Some(TeamMemoryError::EntryTooLong);
    }
    let text = to_lower(join(entry, "\n").as_str());
    if filled < 5 || count_bullets(entry) < 2 || count_sections(text.as_str()) < 2 {
        return Some(TeamMemoryError::EntryInsubstantial);
    }
    None
}

/// What is wrong with the entries in a text.
pub fn validate_new_entries(added: &str) -> (res: Result<(), TeamMemoryError>)
    ensures
        match res {
            Ok(()) => first_problem(line_groups(lines_spec(added@))) is None,
            Err(e) => first_problem(line_groups(lines_spec(added@))) == Some(e),
        },
{
    let groups = group_lines(&lines(added));
    let ghost all = group_views(groups@);
    let mut i: usize = 0;
    assert(all.skip(0) =~= all);
    while i < groups.len()
        invariant
            i <= groups@.len(),
            all == group_views(groups@),
            all == line_groups(lines_spec(added@)),
            first_problem(all) == first_problem(all.skip(i as int)),
        decreases groups@.len() - i,
    {
        assert(all.skip(i as int)[0] == views(groups@[i as int]@));
        assert(all.skip(i as int).drop_first() =~= all.skip(i + 1));
        if let Some(e) = check_entry(&groups[i]) {
            return Err(e);
        }
        i += 1;
    }
    Ok(())
}

// ---------------------------------------------------------------------------
// Entries by heading
// ---------------------------------------------------------------------------

/// Whether an entry's heading starts at this position.
pub open spec fn heading_at(s: Seq<char>, i: int) -> bool {
    match_at(s, "## "@, i) && (i == 0 || s[i - 1] == '\n')
}

/// The positions below `n` at which an entry starts.
pub open spec fn headings_below(s: Seq<char>, n: int) -> Seq<int>
    decreases n,
{
    if n <= 0 {
        Seq::empty()
    } else if heading_at(s, n - 1) {
        headings_below(s, n - 1).push(n - 1)
    } else {
        headings_below(s, n - 1)
    }
}

/// The entries of a log, from each heading to the next. What stands before the
/// first heading belongs to none.
pub open spec fn entries_of(s: Seq<char>) -> Seq<Seq<char>> {
    let starts = headings_below(s, s.len() as int);
    Seq::new(
        starts.len(),
        |k: int|
            s.subrange(
                starts[k],
                if k + 1 < starts.len() {
                    starts[k + 1]
                } else {
                    s.len() as int
                },
            ),
    )
}

/// An entry with its words in small letters and one space between them.
pub open spec fn normalized(entry: Seq<char>) -> Seq<char> {
    join_spec(words_spec(entry).map_values(|w: Seq<char>| lower(w)), " "@)
}

/// The entries in their normal form.
pub open spec fn normal_entries(s: Seq<char>) -> Seq<Seq<char>> {
    entries_of(s).map_values(|e: Seq<char>| normalized(e))
}

/// Whether the added text repeats an entry of the log.
pub open spec fn repeats_entry(old_content: Seq<char>, added: Seq<char>) -> bool {
    exists|i: int|
        0 <= i < normal_entries(added).len() && (#[trigger] normal_entries(added)[i]).len() > 0
            && normal_entries(old_content).contains(normal_entries(added)[i])
}

pub(crate) proof fn lemma_headings(s: Seq<char>, n: int)
    requires
        n <= s.len(),
    ensures
        forall|k: int|
            0 <= k < headings_below(s, n).len() ==> 0 <= #[trigger] headings_below(s, n)[k] < n,
        forall|j: int, k: int|
            0 <= j < k < headings_below(s, n).len() ==> headings_below(s, n)[j]
                < headings_below(s, n)[k],
    decreases n,
{
    if n > 0 {
        lemma_headings(s, n - 1);
        let before = headings_below(s, n - 1);
        let after = headings_below(s, n);
        assert forall|k: int| 0 <= k < after.len() implies 0 <= #[trigger] after[k] < n by {
            if k < before.len() {
                assert(after[k] == before[k]);
            }
        }
        assert forall|j: int, k: int| 0 <= j < k < after.len() implies after[j] < after[k] by {
            assert(after[j] == before[j]);
            if k < before.len() {
                assert(after[k] == before[k]);
            }
        }
    }
}

pub fn split_entries(text: &str) -> (res: Vec<String>)
    ensures
        views(res@) == entries_of(text@),
{
    let chars = chars_of(text);
    let mark = chars_of("## ");
    let ghost s = text@;
    let mut starts: Vec<usize> = Vec::new();
    let ghost found = |v: Seq<usize>| v.map_values(|u: usize| u as int);
    let mut i: usize = 0;
    assert(found(starts@) =~= headings_below(s, 0));
    while i < chars.len()
        invariant
            chars@ == s,
            mark@ == "## "@,
            i <= chars@.len(),
            found == (|v: Seq<usize>| v.map_values(|u: usize| u as int)),
            found(starts@) == headings_below(s, i as int),
        decreases chars@.len() - i,
    {
        let ghost before = found(starts@);
        if matches_at(&chars, &mark, i) && (i == 0 || chars[i - 1] == '\n') {
            starts.push(i);
            assert(found(starts@) =~= before.push(i as int));
        }
        i += 1;
    }
    let ghost all = headings_below(s, s.len() as int);
    proof {
        lemma_headings(s, s.len() as int);
        assert(forall|k: int| 0 <= k < starts@.len() ==> starts@[k] as int == all[k]);
    }
    let ghost wanted = entries_of(s);
    let mut res: Vec<String> = Vec::new();
    let mut k: usize = 0;
    while k < starts.len()
        invariant
            chars@ == s,
            s == text@,
            k <= starts@.len(),
            all == headings_below(s, s.len() as int),
            starts@.len() == all.len(),
            forall|j: int| 0 <= j < starts@.len() ==> starts@[j] as int == all[j],
            forall|j: int| 0 <= j < all.len() ==> 0 <= #[trigger] all[j] < s.len(),
            forall|j: int, l: int| 0 <= j < l < all.len() ==> all[j] < all[l],
            wanted == entries_of(s),
            views(res@) =~= wanted.take(k as int),
        decreases starts@.len() - k,
    {
        let ghost done = views(res@);
        let from = starts[k];
        let to = if k + 1 < starts.len() {
            starts[k + 1]
        } else {
            chars.len()
        };
        assert(from as int == all[k as int]);
        assert(k + 1 < all.len() ==> to as int == all[k + 1] && all[k as int] < all[k + 1]);
        let one = string_of(&chars, from, to);
        let ghost piece = one@;
        assert(wanted[k as int] == piece);
        res.push(one);
        assert(views(res@) =~= done.push(piece));
        k += 1;
    }
    assert(wanted.take(k as int) =~= wanted);
    res
}

pub fn normalize_entry(entry: &str) -> (res: String)
    ensures
        res@ == normalized(entry@),
{
    let parts = words(entry);
    let ghost all = words_spec(entry@).map_values(|w: Seq<char>| lower(w));
    let mut small: Vec<String> = Vec::new();
    let mut i: usize = 0;
    while i < parts.len()
        invariant
            i <= parts@.len(),
            views(parts@) == words_spec(entry@),
            all == words_spec(entry@).map_values(|w: Seq<char>| lower(w)),
            views(small@) =~= all.take(i as int),
        decreases parts@.len() - i,
    {
        let ghost done = views(small@);
        assert(words_spec(entry@)[i as int] == parts@[i as int]@);
        let one = to_lower(parts[i].as_str());
        let ghost text = one@;
        assert(all[i as int] == text);
        small.push(one);
        assert(views(small@) =~= done.push(text));
        i += 1;
    }
    assert(all.take(i as int) =~= all);
    join(&small, " ")
}

fn normalize_all(text: &str) -> (res: Vec<String>)
    ensures
        views(res@) == normal_entries(text@),
{
    let parts = split_entries(text);
    let ghost all = normal_entries(text@);
    let mut res: Vec<String> = Vec::new();
    let mut i: usize = 0;
    while i < parts.len()
        invariant
            i <= parts@.len(),
            views(parts@) == entries_of(text@),
            all == normal_entries(text@),
            views(res@) =~= all.take(i as int),
        decreases parts@.len() - i,
    {
        let ghost done = views(res@);
        assert(entries_of(text@)[i as int] == parts@[i as int]@);
        let one = normalize_entry(parts[i].as_str());
        let ghost form = one@;
        assert(all[i as int] == form);
        res.push(one);
        assert(views(res@) =~= done.push(form));
        i += 1;
    }
    assert(all.take(i as int) =~= all);
    res
}

/// Whether the added text repeats an entry of the log.
pub fn reject_duplicate_entries(old_content: &str, added: &str) -> (res: Result<
    (),
    TeamMemoryError,
>)
    ensures
        match res {
            Ok(()) => !repeats_entry(old_content@, added@),
            Err(e) => repeats_entry(old_content@, added@) && e == TeamMemoryError::DuplicateEntry,
        },
{
    let existing = normalize_all(old_content);
    let new = normalize_all(added);
    let ghost all = normal_entries(added@);
    let mut i: usize = 0;
    while i < new.len()
        invariant
            i <= new@.len(),
            views(existing@) == normal_entries(old_content@),
            all == normal_entries(added@),
            views(new@) == all,
            forall|k: int|
                0 <= k < i ==> !((#[trigger] all[k]).len() > 0 && normal_entries(
                    old_content@,
                ).contains(all[k])),
        decreases new@.len() - i,
    {
        assert(all[i as int] == new@[i as int]@);
        if !new[i].as_str().is_empty() && has_text(&existing, new[i].as_str()) {
            assert(normal_entries(added@)[i as int].len() > 0);
            return Err(TeamMemoryError::DuplicateEntry);
        }
        i += 1;
    }
    Ok(())
}

// ---------------------------------------------------------------------------
// The guard
// ---------------------------------------------------------------------------

/// What a change adds: what follows the old content, or all of the new content
/// where that does not start with the old one.
pub open spec fn added_part(old_content: Seq<char>, new_content: Seq<char>) -> Seq<char> {
    if has_prefix(new_content, old_content) {
        new_content.skip(old_content.len() as int)
    } else {
        new_content
    }
}

pub fn added_suffix(old_content: &str, new_content: &str) -> (res: String)
    ensures
        res@ == added_part(old_content@, new_content@),
{
    match strip_prefix(new_content, old_content) {
        Some(rest) => rest,
        None => new_content.to_string(),
    }
}

/// Why a change of a file is refused. Only the team's session log is guarded.
pub open spec fn update_problem(
    path: Seq<char>,
    old_content: Seq<char>,
    new_content: Seq<char>,
    writer_allowed: bool,
) -> Option<TeamMemoryError> {
    let added = added_part(old_content, new_content);
    if !is_session_log(path) {
        None
    } else if !writer_allowed {
        Some(TeamMemoryError::WorkerWrite)
    } else if has_infix(lower(new_content), "session ended"@) {
        Some(TeamMemoryError::SessionStub)
    } else if has_session_id(new_content) {
        Some(TeamMemoryError::SessionId)
    } else if has_session_link(lower(new_content)) {
        Some(TeamMemoryError::SessionLink)
    } else if trim_spec(added).len() == 0 {
        None
    } else if first_problem(line_groups(lines_spec(added))) is Some {
        first_problem(line_groups(lines_spec(added)))
    } else if repeats_entry(old_content, added) {
        Some(TeamMemoryError::DuplicateEntry)
    } else {
        None
    }
}

pub fn validate_team_memory_session_log_update(
    path: &str,
    old_content: &str,
    new_content: &str,
    writer_allowed: bool,
) -> (res: Result<(), TeamMemoryError>)
    ensures
        match res {
            Ok(()) => update_problem(path@, old_content@, new_content@, writer_allowed) is None,
            Err(e) => update_problem(path@, old_content@, new_content@, writer_allowed) == Some(e),
        },
{
    if !is_team_memory_session_log(path) {
        return Ok(());
    }
    if !writer_allowed {
        return Err(TeamMemoryError::WorkerWrite);
    }
    let lowered = to_lower(new_content);
    if contains(lowered.as_str(), "session ended") {
        return Err(TeamMemoryError::SessionStub);
    }
    if contains_session_id(new_content) {
        return Err(TeamMemoryError::SessionId);
    }
    if contains(lowered.as_str(), "transcript link") || contains(lowered.as_str(), "/sessions/")
        || contains(lowered.as_str(), "jcode://session") {
        return Err(TeamMemoryError::SessionLink);
    }
    let added = added_suffix(old_content, new_content);
    if is_blank(added.as_str()) {
        return Ok(());
    }
    if let Err(e) = validate_new_entries(added.as_str()) {
        return Err(e);
    }
    reject_duplicate_entries(old_content, added.as_str())
}

// ---------------------------------------------------------------------------
// Laws
// ---------------------------------------------------------------------------

/// Files other than the team's session log are never guarded, and nobody but
/// the root or the coordinator changes the log.
pub proof fn law_only_the_log_is_guarded(
    path: Seq<char>,
    old_content: Seq<char>,
    new_content: Seq<char>,
    writer_allowed: bool,
)
    ensures
        !is_session_log(path) ==> update_problem(
            path,
            old_content,
            new_content,
            writer_allowed,
        ) is None,
        is_session_log(path) && !writer_allowed ==> update_problem(
            path,
            old_content,
            new_content,
            writer_allowed,
        ) == Some(TeamMemoryError::WorkerWrite),
{
}

proof fn lemma_no_problem(entries: Seq<Seq<Seq<char>>>, i: int)
    requires
        first_problem(entries) is None,
        0 <= i < entries.len(),
    ensures
        entry_problem(entries[i]) is None,
    decreases entries.len(),
{
    if i > 0 {
        lemma_no_problem(entries.drop_first(), i - 1);
    }
}

/// An accepted log holds no stub, no session identifier and no session link.
/// Every entry that was added is substantive and short enough, and repeats none
/// that was there.
pub proof fn law_accepted_logs_are_substantive(
    path: Seq<char>,
    old_content: Seq<char>,
    new_content: Seq<char>,
    writer_allowed: bool,
)
    requires
        is_session_log(path),
        update_problem(path, old_content, new_content, writer_allowed) is None,
    ensures
        writer_allowed,
        !has_infix(lower(new_content), "session ended"@),
        !has_session_id(new_content),
        !has_session_link(lower(new_content)),
        ({
            let added = added_part(old_content, new_content);
            let groups = line_groups(lines_spec(added));
            trim_spec(added).len() > 0 ==> {
                &&& !repeats_entry(old_content, added)
                &&& forall|i: int|
                    0 <= i < groups.len() && filled_lines(#[trigger] groups[i]) > 0 ==> {
                        &&& groups[i].len() <= MAX_ENTRY_LINES
                        &&& filled_lines(groups[i]) >= 5
                        &&& bullets(groups[i]) >= 2
                        &&& sections(lower(join_spec(groups[i], "\n"@))) >= 2
                    }
            }
        }),
{
    let groups = line_groups(lines_spec(added_part(old_content, new_content)));
    assert forall|i: int|
        0 <= i < groups.len() && filled_lines(#[trigger] groups[i]) > 0
            && first_problem(groups) is None implies entry_problem(groups[i]) is None by {
        lemma_no_problem(groups, i);
    }
}

/// A change that adds nothing is accepted from whoever may write, where the log
/// holds nothing forbidden.
pub proof fn law_unchanged_logs_are_accepted(path: Seq<char>, content: Seq<char>)
    requires
        !has_infix(lower(content), "session ended"@),
        !has_session_id(content),
        !has_session_link(lower(content)),
    ensures
        update_problem(path, content, content, true) is None,
{
    assert(content.subrange(0, content.len() as int) =~= content);
    assert(match_at(content, content, 0));
    assert(content.skip(content.len() as int) =~= Seq::<char>::empty());
    assert(trim_start_spec(Seq::<char>::empty(), CharClass::White) =~= Seq::<char>::empty());
}

} // verus!
