use jcode::team_memory::{
    contains_session_id, is_team_memory_session_log, normalize_entry, split_entries,
    validate_team_memory_session_log_update, TeamMemoryError,
};

fn path() -> &'static str {
    "/repo/TEAM_MEMORY/SESSION_LOG.md"
}

const ENTRY: &str = "## 2026-07-29 — Runtime consolidation\n\n### What was done\n- Unified output generation.\n- Removed placeholder navigation.\n\n### Validation\n- Full tests passed.\n";

#[test]
fn rejects_worker_writes() {
    let err = validate_team_memory_session_log_update(path(), "", "# Log\n", false).unwrap_err();
    assert!(err.message().contains("root or coordinator"));
}

#[test]
fn rejects_session_stub_and_identifiers() {
    let stub = "## 2026-07-29 — Session ended\n\n**Session:** session_fox_123456789\n";
    assert!(validate_team_memory_session_log_update(path(), "", stub, true).is_err());
}

#[test]
fn rejects_insubstantial_entry() {
    let entry = "## 2026-07-29 — Work\n\n- Done.\n";
    assert!(validate_team_memory_session_log_update(path(), "", entry, true).is_err());
}

#[test]
fn rejects_duplicate_summary() {
    let entry = "## 2026-07-29 — Runtime consolidation\n\n### What was done\n- Unified output generation.\n- Removed placeholder navigation.\n\n### Validation\n- Full tests passed.\n";
    let new_content = format!("{entry}\n{entry}");
    assert!(validate_team_memory_session_log_update(path(), entry, &new_content, true).is_err());
}

#[test]
fn accepts_concise_substantive_summary() {
    let entry = "## 2026-07-29 — Runtime consolidation\n\n### What was done\n- Unified output generation.\n- Removed placeholder navigation.\n\n### Validation\n- Full tests passed.\n";
    validate_team_memory_session_log_update(path(), "", entry, true).unwrap();
}

#[test]
fn ignores_unrelated_files() {
    validate_team_memory_session_log_update("notes.md", "", "session_bad_1234567", false).unwrap();
}

#[test]
fn the_log_is_known_by_its_last_two_names() {
    assert!(is_team_memory_session_log("TEAM_MEMORY/SESSION_LOG.md"));
    assert!(is_team_memory_session_log("/a/team_memory//./session_log.MD/"));
    assert!(!is_team_memory_session_log("SESSION_LOG.md"));
    assert!(!is_team_memory_session_log("/SESSION_LOG.md"));
    assert!(!is_team_memory_session_log("TEAM_MEMORY/x/SESSION_LOG.md"));
    assert!(!is_team_memory_session_log("TEAM_MEMORY/SESSION_LOG.md/.."));
    assert!(!is_team_memory_session_log(""));
}

#[test]
fn each_forbidden_content_has_its_error() {
    let refuse = |content: &str| {
        validate_team_memory_session_log_update(path(), "", content, true).unwrap_err()
    };
    assert_eq!(refuse("SESSION ENDED"), TeamMemoryError::SessionStub);
    assert_eq!(refuse("by `session_fox_12345`"), TeamMemoryError::SessionId);
    assert_eq!(refuse("see Transcript Link"), TeamMemoryError::SessionLink);
    assert_eq!(refuse("see /home/x/sessions/1"), TeamMemoryError::SessionLink);
    assert_eq!(refuse("jcode://session/1"), TeamMemoryError::SessionLink);
    assert_eq!(refuse("text"), TeamMemoryError::EntryInsubstantial);
    let long = format!("{ENTRY}{}", "more\n".repeat(50));
    assert_eq!(refuse(&long), TeamMemoryError::EntryTooLong);
    let added = format!("{ENTRY}\n{ENTRY}");
    assert_eq!(
        validate_team_memory_session_log_update(path(), ENTRY, &added, true).unwrap_err(),
        TeamMemoryError::DuplicateEntry
    );
}

#[test]
fn every_error_says_what_is_wrong() {
    let texts = [
        (TeamMemoryError::WorkerWrite, "Only the root or coordinator session may modify TEAM_MEMORY/SESSION_LOG.md; swarm workers must report findings to their coordinator"),
        (TeamMemoryError::SessionStub, "TEAM_MEMORY entries must be substantive summaries; generic 'Session ended' stubs are forbidden"),
        (TeamMemoryError::SessionId, "TEAM_MEMORY must not contain Jcode session IDs"),
        (TeamMemoryError::SessionLink, "TEAM_MEMORY must not contain transcript or session links"),
        (TeamMemoryError::EntryTooLong, "Each TEAM_MEMORY session summary must be at most 50 lines"),
        (TeamMemoryError::EntryInsubstantial, "TEAM_MEMORY entries must be substantive summaries with at least two named sections and two concrete bullet points"),
        (TeamMemoryError::DuplicateEntry, "TEAM_MEMORY must not append duplicate task or session summaries"),
    ];
    for (error, text) in texts {
        assert_eq!(error.message(), text);
    }
}

#[test]
fn session_identifiers_need_some_length() {
    assert!(!contains_session_id("session_123456"));
    assert!(contains_session_id("session_1234567"));
    assert!(contains_session_id("(**session_1234567**)"));
    assert!(!contains_session_id("my_session_1234567"));
    assert!(contains_session_id("§session_1234567§"));
}

#[test]
fn an_unchanged_log_is_accepted() {
    validate_team_memory_session_log_update(path(), ENTRY, ENTRY, true).unwrap();
    validate_team_memory_session_log_update(path(), ENTRY, &format!("{ENTRY}\n \n"), true)
        .unwrap();
}

#[test]
fn a_rewritten_log_is_judged_as_a_whole() {
    let other = ENTRY.replace("Runtime", "Build");
    validate_team_memory_session_log_update(path(), "gone", &other, true).unwrap();
    let both = format!("{ENTRY}{other}");
    validate_team_memory_session_log_update(path(), ENTRY, &both, true).unwrap();
}

#[test]
fn entries_start_at_headings_of_the_second_level() {
    assert_eq!(
        split_entries("intro\n## a\nx\n### sub\n## b\ny"),
        ["## a\nx\n### sub\n", "## b\ny"]
    );
    assert_eq!(split_entries("## only"), ["## only"]);
    assert!(split_entries("no heading ## here").is_empty());
    assert_eq!(normalize_entry("  ## A\n\tB  c "), "## a b c");
}
