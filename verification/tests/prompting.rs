use std::time::Instant;

use jcode::agent::prompting::{prompt_prefix_note, Agent, PendingMemory, SplitSystemPrompt};

fn pending(prompt: &str, ids: &[&str]) -> PendingMemory {
    PendingMemory {
        prompt: prompt.to_string(),
        display_prompt: Some(format!("display:{prompt}")),
        computed_at: Instant::now(),
        count: ids.len(),
        memory_ids: ids.iter().map(|id| (*id).to_string()).collect(),
    }
}

fn agent() -> Agent {
    Agent {
        memory_enabled: true,
        system_prompt_override: None,
        current_turn_system_reminder: None,
    }
}

fn split(dynamic: &str) -> SplitSystemPrompt {
    SplitSystemPrompt {
        static_part: "static".to_string(),
        dynamic_part: dynamic.to_string(),
    }
}

#[test]
fn merge_pending_memory_combines_async_and_current_turn_context() {
    let merged = Agent::merge_pending_memory(
        Some(pending("personal", &["memory-1"])),
        Some(pending("graph", &["graph-1"])),
    )
    .expect("merged memory");

    assert_eq!(merged.prompt, "personal\n\ngraph");
    assert_eq!(
        merged.display_prompt.as_deref(),
        Some("display:personal\n\ndisplay:graph")
    );
    assert_eq!(merged.count, 2);
    assert_eq!(merged.memory_ids, ["memory-1", "graph-1"]);
}

#[test]
fn merge_pending_memory_deduplicates_memory_ids() {
    let merged = Agent::merge_pending_memory(
        Some(pending("older", &["shared"])),
        Some(pending("current", &["shared"])),
    )
    .expect("merged memory");

    assert_eq!(merged.memory_ids, ["shared"]);
    assert_eq!(merged.count, 2);
}

#[test]
fn one_memory_alone_stays_as_it_is() {
    assert!(Agent::merge_pending_memory(None, None).is_none());
    let memory = pending("only", &["a", "a"]);
    let when = memory.computed_at;
    let left = Agent::merge_pending_memory(Some(memory), None).unwrap();
    assert_eq!(left.prompt, "only");
    assert_eq!(left.memory_ids, ["a", "a"]);
    assert_eq!(left.computed_at, when);
    let right = Agent::merge_pending_memory(None, Some(pending("other", &["b"]))).unwrap();
    assert_eq!(right.prompt, "other");
}

#[test]
fn merging_keeps_the_older_time_and_holds_the_count() {
    let mut old = pending("old", &["a"]);
    old.count = usize::MAX;
    old.display_prompt = None;
    let when = old.computed_at;
    let merged = Agent::merge_pending_memory(Some(old), Some(pending("new", &["b"]))).unwrap();
    assert_eq!(merged.count, usize::MAX);
    assert_eq!(merged.computed_at, when);
    assert_eq!(merged.display_prompt.as_deref(), Some("display:new"));
    let mut new = pending("new", &["b"]);
    new.display_prompt = None;
    let merged = Agent::merge_pending_memory(Some(pending("old", &["a"])), Some(new)).unwrap();
    assert_eq!(merged.display_prompt.as_deref(), Some("display:old"));
}

#[test]
fn memory_is_used_at_the_start_of_a_turn() {
    let on = agent();
    let off = Agent {
        memory_enabled: false,
        ..agent()
    };
    assert!(on.updates_memory(true));
    assert!(!on.updates_memory(false));
    assert!(!off.updates_memory(true));
    assert!(off
        .build_memory_prompt_for_current_turn(true, Some(pending("p", &[])), None)
        .is_none());
    let kept = on
        .build_memory_prompt_for_current_turn(
            false,
            Some(pending("p", &[])),
            Some(pending("c", &[])),
        )
        .unwrap();
    assert_eq!(kept.prompt, "p");
    let merged = on
        .build_memory_prompt_for_current_turn(
            true,
            Some(pending("p", &[])),
            Some(pending("c", &[])),
        )
        .unwrap();
    assert_eq!(merged.prompt, "p\n\nc");
}

#[test]
fn the_graph_gives_memory_only_with_entries_and_a_prompt() {
    let now = Instant::now();
    let ids = || vec!["a".to_string(), "b".to_string()];
    assert!(
        Agent::graphify_memory_for_current_turn(Some("p".to_string()), None, Vec::new(), now)
            .is_none()
    );
    assert!(Agent::graphify_memory_for_current_turn(None, None, ids(), now).is_none());
    let memory =
        Agent::graphify_memory_for_current_turn(Some("p".to_string()), None, ids(), now).unwrap();
    assert_eq!(memory.count, 2);
    assert_eq!(memory.memory_ids, ["a", "b"]);
}

#[test]
fn a_reminder_goes_to_the_end_of_the_changing_part() {
    let reminding = Agent {
        current_turn_system_reminder: Some("  be brief \n".to_string()),
        ..agent()
    };
    let built = reminding.build_system_prompt_split(split("today"));
    assert_eq!(built.static_part, "static");
    assert_eq!(
        built.dynamic_part,
        "today\n\n# System Reminder\n\nbe brief"
    );
    let built = reminding.build_system_prompt_split(split(""));
    assert_eq!(built.dynamic_part, "# System Reminder\n\nbe brief");
    let blank = Agent {
        current_turn_system_reminder: Some(" \n".to_string()),
        ..agent()
    };
    assert_eq!(blank.build_system_prompt_split(split("x")).dynamic_part, "x");
}

#[test]
fn an_override_replaces_everything() {
    let overriding = Agent {
        system_prompt_override: Some("mine".to_string()),
        current_turn_system_reminder: Some("reminder".to_string()),
        ..agent()
    };
    let built = overriding.build_system_prompt_split(split("x"));
    assert_eq!(built.static_part, "mine");
    assert_eq!(built.dynamic_part, "");
}

#[test]
fn the_prefix_is_accounted_for() {
    assert_eq!(
        prompt_prefix_note(1200, 34),
        "Prompt prefix estimate: total=1234 tokens (system=1200 tools=34)"
    );
}
