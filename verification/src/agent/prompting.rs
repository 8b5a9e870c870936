//! The memory and the system prompt of a turn.

use vstd::prelude::*;

use crate::number::{decimal, decimal_spec};
use crate::text::{is_blank, opt_view, push_new, push_new_spec, trim, trim_spec, views};

verus! {

/// `std::time::Instant`, the time at which a memory was made ready. Nothing is
/// said of it; it is carried along.
#[verifier::external_type_specification]
#[verifier::external_body]
pub struct ExInstant(std::time::Instant);

/// Memory that waits for the next prompt.
#[derive(Debug)]
pub struct PendingMemory {
    pub prompt: String,
    pub display_prompt: Option<String>,
    pub computed_at: std::time::Instant,
    pub count: usize,
    pub memory_ids: Vec<String>,
}

#[verifier::ext_equal]
pub struct MemoryView {
    pub prompt: Seq<char>,
    pub display_prompt: Option<Seq<char>>,
    pub computed_at: std::time::Instant,
    pub count: nat,
    pub memory_ids: Seq<Seq<char>>,
}

impl View for PendingMemory {
    type V = MemoryView;

    open spec fn view(&self) -> MemoryView {
        MemoryView {
            prompt: self.prompt@,
            display_prompt: opt_view(self.display_prompt),
            computed_at: self.computed_at,
            count: self.count as nat,
            memory_ids: views(self.memory_ids@),
        }
    }
}

pub open spec fn memory_view(o: Option<PendingMemory>) -> Option<MemoryView> {
    match o {
        Some(m) => Some(m@),
        None => None,
    }
}

/// The identifiers of both, each once: those of `left` stay as they are, and
/// those of `right` that are not among them follow.
pub open spec fn merged_ids(left: Seq<Seq<char>>, right: Seq<Seq<char>>) -> Seq<Seq<char>>
    decreases right.len(),
{
    if right.len() == 0 {
        left
    } else {
        push_new_spec(merged_ids(left, right.drop_last()), right.last())
    }
}

/// Two texts with an empty line between them.
pub open spec fn paragraphs(left: Seq<char>, right: Seq<char>) -> Seq<char> {
    left + "\n\n"@ + right
}

/// The memory that was made ready before and the one of this turn, as one.
pub open spec fn merged(
    pending: Option<MemoryView>,
    current: Option<MemoryView>,
) -> Option<MemoryView> {
    match (pending, current) {
        (None, None) => None,
        (Some(memory), None) => Some(memory),
        (None, Some(memory)) => Some(memory),
        (Some(old), Some(new)) => Some(
            MemoryView {
                prompt: paragraphs(old.prompt, new.prompt),
                display_prompt: match (old.display_prompt, new.display_prompt) {
                    (Some(left), Some(right)) => Some(paragraphs(left, right)),
                    (Some(left), None) => Some(left),
                    (None, right) => right,
                },
                computed_at: old.computed_at,
                count: if old.count + new.count <= usize::MAX {
                    old.count + new.count
                } else {
                    usize::MAX as nat
                },
                memory_ids: merged_ids(old.memory_ids, new.memory_ids),
            },
        ),
    }
}

/// A system prompt in two parts: one that stays the same from turn to turn, and
/// one that changes.
#[derive(Debug)]
pub struct SplitSystemPrompt {
    pub static_part: String,
    pub dynamic_part: String,
}

#[verifier::ext_equal]
pub struct SplitView {
    pub static_part: Seq<char>,
    pub dynamic_part: Seq<char>,
}

impl View for SplitSystemPrompt {
    type V = SplitView;

    open spec fn view(&self) -> SplitView {
        SplitView { static_part: self.static_part@, dynamic_part: self.dynamic_part@ }
    }
}

/// The prompt with the reminder of this turn at its end. A blank reminder is
/// none.
pub open spec fn reminded(split: SplitView, reminder: Option<Seq<char>>) -> SplitView {
    match reminder {
        Some(text) => if trim_spec(text).len() == 0 {
            split
        } else {
            SplitView {
                dynamic_part: (if split.dynamic_part.len() > 0 {
                    split.dynamic_part + "\n\n"@
                } else {
                    split.dynamic_part
                }) + "# System Reminder\n\n"@ + trim_spec(text),
                ..split
            }
        },
        None => split,
    }
}

/// What an agent's prompt depends on.
#[derive(Debug)]
pub struct Agent {
    pub memory_enabled: bool,
    pub system_prompt_override: Option<String>,
    pub current_turn_system_reminder: Option<String>,
}

impl Agent {
    pub fn merge_pending_memory(
        pending: Option<PendingMemory>,
        current: Option<PendingMemory>,
    ) -> (res: Option<PendingMemory>)
        ensures
            memory_view(res) == merged(memory_view(pending), memory_view(current)),
    {
        match (pending, current) {
            (None, None) => None,
            (Some(memory), None) => Some(memory),
            (None, Some(memory)) => Some(memory),
            (Some(old), Some(new)) => {
                let ghost want = merged(Some(old@), Some(new@))->0;
                let ghost left = views(old.memory_ids@);
                let ghost right = views(new.memory_ids@);
                let prompt = old.prompt.concat("\n\n").concat(new.prompt.as_str());
                let display_prompt = match (old.display_prompt, new.display_prompt) {
                    (Some(left), Some(right)) => Some(
                        left.concat("\n\n").concat(right.as_str()),
                    ),
                    (Some(left), None) => Some(left),
                    (None, right) => right,
                };
                let mut memory_ids = old.memory_ids;
                let more = new.memory_ids;
                let mut i: usize = 0;
                assert(right.take(0) =~= Seq::<Seq<char>>::empty());
                while i < more.len()
                    invariant
                        i <= more@.len(),
                        right == views(more@),
                        views(memory_ids@) == merged_ids(left, right.take(i as int)),
                    decreases more@.len() - i,
                {
                    assert(right.take(i + 1).drop_last() =~= right.take(i as int));
                    assert(right.take(i + 1).last() == more@[i as int]@);
                    push_new(&mut memory_ids, more[i].clone());
                    i += 1;
                }
                assert(right.take(i as int) =~= right);
                let res = PendingMemory {
                    prompt,
                    display_prompt,
                    computed_at: old.computed_at,
                    count: old.count.saturating_add(new.count),
                    memory_ids,
                };
                assert(res@ =~= want);
                Some(res)
            },
        }
    }

    /// Whether memory that was made ready is taken for this turn, and whether
    /// the memory agent is told of the conversation: only where a fresh turn of
    /// the user begins.
    pub fn updates_memory(&self, fresh_user_turn: bool) -> (res: bool)
        ensures
            res == (self.memory_enabled && fresh_user_turn),
    {
        self.memory_enabled && fresh_user_turn
    }

    /// The memory for this turn. `current` is what the code graph answers; it
    /// counts only where a fresh turn of the user begins.
    pub fn build_memory_prompt_for_current_turn(
        &self,
        fresh_user_turn: bool,
        pending: Option<PendingMemory>,
        current: Option<PendingMemory>,
    ) -> (res: Option<PendingMemory>)
        ensures
            memory_view(res) == if !self.memory_enabled {
                None
            } else if !fresh_user_turn {
                memory_view(pending)
            } else {
                merged(memory_view(pending), memory_view(current))
            },
    {
        if !self.memory_enabled {
            return None;
        }
        if !fresh_user_turn {
            return pending;
        }
        Self::merge_pending_memory(pending, current)
    }

    /// The code graph's answer as memory for this turn. There is none without
    /// entries, nor where nothing could be written of them.
    pub fn graphify_memory_for_current_turn(
        prompt: Option<String>,
        display_prompt: Option<String>,
        memory_ids: Vec<String>,
        computed_at: std::time::Instant,
    ) -> (res: Option<PendingMemory>)
        ensures
            memory_view(res) == (if memory_ids@.len() == 0 || prompt is None {
                None
            } else {
                Some(
                    MemoryView {
                        prompt: prompt->0@,
                        display_prompt: opt_view(display_prompt),
                        computed_at,
                        count: memory_ids@.len(),
                        memory_ids: views(memory_ids@),
                    },
                )
            }),
    {
        if memory_ids.len() == 0 {
            return None;
        }
        match prompt {
            Some(prompt) => Some(
                PendingMemory {
                    prompt,
                    display_prompt,
                    computed_at,
                    count: memory_ids.len(),
                    memory_ids,
                },
            ),
            None => None,
        }
    }

    /// Adds the reminder of this turn to the part that changes.
    pub fn append_current_turn_system_reminder(&self, split: &mut SplitSystemPrompt)
        ensures
            final(split)@ == reminded(old(split)@, opt_view(self.current_turn_system_reminder)),
    {
        if let Some(text) = &self.current_turn_system_reminder {
            if is_blank(text.as_str()) {
                return;
            }
            if !split.dynamic_part.as_str().is_empty() {
                split.dynamic_part.append("\n\n");
            }
            split.dynamic_part.append("# System Reminder\n\n");
            split.dynamic_part.append(trim(text.as_str()).as_str());
        }
    }

    /// The system prompt of this turn: the override as it is where there is
    /// one, else the prompt that was built, with the reminder.
    pub fn build_system_prompt_split(&self, built: SplitSystemPrompt) -> (res: SplitSystemPrompt)
        ensures
            res@ == (match self.system_prompt_override {
                Some(text) => SplitView { static_part: text@, dynamic_part: Seq::empty() },
                None => reminded(built@, opt_view(self.current_turn_system_reminder)),
            }),
    {
        if let Some(text) = &self.system_prompt_override {
            let res = SplitSystemPrompt { static_part: text.clone(), dynamic_part: String::new() };
            assert(res.dynamic_part@ =~= Seq::<char>::empty());
            return res;
        }
        let mut split = built;
        self.append_current_turn_system_reminder(&mut split);
        split
    }
}

/// What is noted of the size of a prompt's constant part.
pub fn prompt_prefix_note(system_tokens: usize, tool_tokens: usize) -> (res: String)
    requires
        system_tokens + tool_tokens <= usize::MAX,
    ensures
        res@ == "Prompt prefix estimate: total="@ + decimal_spec(
            (system_tokens + tool_tokens) as nat,
        ) + " tokens (system="@ + decimal_spec(system_tokens as nat) + " tools="@ + decimal_spec(
            tool_tokens as nat,
        ) + ")"@,
{
    "Prompt prefix estimate: total=".to_string().concat(
        decimal((system_tokens + tool_tokens) as u64).as_str(),
    ).concat(" tokens (system=").concat(decimal(system_tokens as u64).as_str()).concat(
        " tools=",
    ).concat(decimal(tool_tokens as u64).as_str()).concat(")")
}

// ---------------------------------------------------------------------------
// Laws
// ---------------------------------------------------------------------------

pub(crate) proof fn lemma_merged_ids(left: Seq<Seq<char>>, right: Seq<Seq<char>>)
    ensures
        left.no_duplicates() ==> merged_ids(left, right).no_duplicates(),
        forall|id: Seq<char>| #[trigger]
            merged_ids(left, right).contains(id) <==> left.contains(id) || right.contains(id),
        merged_ids(left, right).len() >= left.len(),
        merged_ids(left, right).take(left.len() as int) == left,
    decreases right.len(),
{
    if right.len() == 0 {
        assert(left.take(left.len() as int) =~= left);
    } else {
        let rest = right.drop_last();
        let last = right.last();
        lemma_merged_ids(left, rest);
        let before = merged_ids(left, rest);
        let after = merged_ids(left, right);
        assert forall|id: Seq<char>| #[trigger] after.contains(id) <==> left.contains(id)
            || right.contains(id) by {
            if after.contains(id) {
                let k = choose|k: int| 0 <= k < after.len() && after[k] == id;
                if k < before.len() {
                    assert(before[k] == id);
                    assert(before.contains(id));
                    if rest.contains(id) {
                        let j = choose|j: int| 0 <= j < rest.len() && rest[j] == id;
                        assert(right[j] == id);
                    }
                } else {
                    assert(right[right.len() - 1] == id);
                }
            }
            if left.contains(id) || rest.contains(id) {
                assert(before.contains(id));
                let k = choose|k: int| 0 <= k < before.len() && before[k] == id;
                assert(after[k] == id);
            }
            if right.contains(id) && !rest.contains(id) {
                let j = choose|j: int| 0 <= j < right.len() && right[j] == id;
                if j < rest.len() {
                    assert(rest[j] == id);
                }
                assert(id == last);
                if before.contains(id) {
                    let k = choose|k: int| 0 <= k < before.len() && before[k] == id;
                    assert(after[k] == id);
                } else {
                    assert(after[before.len() as int] == id);
                }
            }
        }
        assert(after.take(left.len() as int) =~= before.take(left.len() as int));
    }
}

/// Merged memory loses nothing of either side: both prompts stand in it, every
/// identifier of either is there, none twice, and those that were ready before
/// come first.
pub proof fn law_merging_loses_nothing(old: MemoryView, new: MemoryView)
    requires
        old.memory_ids.no_duplicates(),
    ensures
        ({
            let m = merged(Some(old), Some(new))->0;
            &&& m.prompt == old.prompt + "\n\n"@ + new.prompt
            &&& m.memory_ids.no_duplicates()
            &&& m.memory_ids.take(old.memory_ids.len() as int) == old.memory_ids
            &&& forall|id: Seq<char>| #[trigger]
                m.memory_ids.contains(id) <==> old.memory_ids.contains(id)
                    || new.memory_ids.contains(id)
        }),
{
    lemma_merged_ids(old.memory_ids, new.memory_ids);
}

} // verus!
