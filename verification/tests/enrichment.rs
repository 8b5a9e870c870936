use jcode::agent::enrichment::{
    enabled_sources, enrich_context, entries_from_enrichments, extract_vault_title, graphify_arguments,
    graphify_query, graphify_results, pgvector_results, vault_note, vault_paths,
    vault_search_command, ContextCompressionMode, EnabledSources, ExternalEnrichment,
    MemoryCategory,
};

fn lines(all: &[&str]) -> Vec<String> {
    all.iter().map(|line| line.to_string()).collect()
}

fn contents(all: &[ExternalEnrichment]) -> Vec<&str> {
    all.iter().map(|one| one.content.as_str()).collect()
}

#[test]
fn a_long_query_is_cut() {
    assert_eq!(graphify_query("short"), "short");
    assert_eq!(graphify_query(&"x".repeat(240)), "x".repeat(240));
    assert_eq!(graphify_query(&"x".repeat(300)), "x".repeat(240));
    assert_eq!(graphify_query(&"é".repeat(200)), "é".repeat(120));
}

#[test]
fn the_code_graph_is_asked_within_a_budget() {
    assert_eq!(
        graphify_arguments("who calls main", 1_200),
        ["query", "who calls main", "--format", "compact", "--budget", "1200"]
    );
}

#[test]
fn the_code_graph_gives_what_is_no_node() {
    let results = graphify_results("a: b\n\nNODE x [y]\n  c: d \nNODES\n");
    assert_eq!(contents(&results), ["a: b", "c: d"]);
    assert_eq!(results[0].source, "graphify");
    assert!(results[0].source_id.is_none());
    let many: String = (0..30).map(|index| format!("line {index}\n")).collect();
    assert_eq!(graphify_results(&many).len(), 10);
    let blanks = "\n".repeat(10) + "too late";
    assert!(graphify_results(&blanks).is_empty());
}

#[test]
fn the_vector_index_gives_its_lines() {
    let results = pgvector_results("NODE a\n b \n");
    assert_eq!(contents(&results), ["NODE a", "b"]);
    assert_eq!(results[1].source, "pgvector");
    let many: String = (0..30).map(|index| format!("line {index}\n")).collect();
    assert_eq!(pgvector_results(&many).len(), 8);
}

#[test]
fn the_vault_search_quotes_its_query() {
    assert_eq!(
        vault_search_command("it's"),
        "find /sharedssd/vault -name '*.md' -exec grep -li -m1 'it'\\''s' {} \\; 2>/dev/null | head -8"
    );
}

#[test]
fn a_title_stands_in_the_front_matter() {
    assert_eq!(
        extract_vault_title(&lines(&["---", "title: \"A note\"", "---"])).as_deref(),
        Some("A note")
    );
    assert_eq!(
        extract_vault_title(&lines(&["# x", " --- ", "tags: y", "  title:B "])).as_deref(),
        Some("B")
    );
    assert!(extract_vault_title(&lines(&["title: A"])).is_none());
    assert!(extract_vault_title(&lines(&["---", "---", "title: A"])).is_none());
    assert!(extract_vault_title(&lines(&[])).is_none());
}

#[test]
fn a_note_is_seen_from_the_vault() {
    let titled = vault_note(
        "/sharedssd/vault/zettel/2024.01.md",
        &lines(&["---", "title: Budget"]),
    );
    assert_eq!(titled.content, "[Budget](zettel/2024.01.md)");
    assert_eq!(titled.source_id.as_deref(), Some("zettel/2024.01.md"));
    assert_eq!(titled.source, "vault");
    let note = |path: &str| vault_note(path, &Vec::new()).content;
    assert_eq!(note("/sharedssd/vault/a/2024.01.md"), "[2024.01](a/2024.01.md)");
    assert_eq!(note("//sharedssd/./vault//a//b.md/"), "[b](a//b.md)");
    assert_eq!(note("/elsewhere/.hidden"), "[.hidden](/elsewhere/.hidden)");
    assert_eq!(note("notes/x.tar.gz"), "[x.tar](notes/x.tar.gz)");
    assert_eq!(note("/sharedssd/vault"), "[vault]()");
    assert_eq!(note("/sharedssd/vaults/a"), "[a](/sharedssd/vaults/a)");
    assert_eq!(note("/"), "[unknown](/)");
    assert_eq!(note("a/.."), "[unknown](a/..)");
}

#[test]
fn paths_agree_with_the_standard_library() {
    for path in [
        "/sharedssd/vault/a.md",
        "/sharedssd/vault/./b/c.tar.gz",
        "/sharedssd//vault/b//c.md/.",
        "/sharedssd/vault",
        "/sharedssd/vault/",
        "/sharedssd/vault/..",
        "/sharedssd/other/a.md",
        "sharedssd/vault/a.md",
        "./a.md",
        ".",
        "/",
        "",
        ".hidden",
        "a.",
        "..a",
    ] {
        let std_path = std::path::Path::new(path);
        let stem = std_path
            .file_stem()
            .and_then(|stem| stem.to_str())
            .unwrap_or("unknown");
        let place = std_path
            .strip_prefix("/sharedssd/vault")
            .unwrap_or(std_path)
            .display()
            .to_string();
        assert_eq!(
            vault_note(path, &Vec::new()).content,
            format!("[{stem}]({place})"),
            "{path:?}"
        );
    }
}

#[test]
fn paths_of_notes_are_listed() {
    assert_eq!(vault_paths(" a \n\nb\n"), ["a", "b"]);
    let many: String = (0..30).map(|index| format!("p{index}\n")).collect();
    assert_eq!(vault_paths(&many).len(), 8);
}

#[test]
fn entries_are_marked_as_from_outside() {
    let mut found = vec![ExternalEnrichment {
        content: "text".to_string(),
        source: "vault",
        source_id: Some("a.md".to_string()),
    }];
    let entries = entries_from_enrichments(&mut found, "vault", "vault-obsidian");
    assert!(found.is_empty());
    assert_eq!(entries[0].category, MemoryCategory::External);
    assert_eq!(entries[0].collection, "vault-obsidian");
    assert_eq!(entries[0].content, "[vault] text");
    assert_eq!(entries[0].source, "vault");
    assert_eq!(entries[0].tags, ["a.md", "vault", "external_enrichment"]);
}

#[test]
fn only_enabled_sources_speak() {
    let told = |graphify: bool, vault_on: bool, pgvector: bool| {
        enrich_context(
            EnabledSources {
                graphify,
                vault: vault_on,
                pgvector,
            },
            graphify_results("g"),
            vec![vault_note("/sharedssd/vault/v.md", &Vec::new())],
            pgvector_results("p"),
        )
        .into_iter()
        .inspect(|entry| assert_eq!(entry.category, MemoryCategory::External))
        .map(|entry| entry.content)
        .collect::<Vec<_>>()
    };
    assert_eq!(
        told(true, true, true),
        ["[graphify] g", "[vault] [v](v.md)", "[pgvector] p"]
    );
    assert_eq!(told(false, true, false), ["[vault] [v](v.md)"]);
    assert!(told(false, false, false).is_empty());
}

#[test]
fn compiling_from_the_code_graph_turns_it_on() {
    let none = EnabledSources {
        graphify: false,
        vault: false,
        pgvector: true,
    };
    assert!(!enabled_sources(ContextCompressionMode::Off, none).graphify);
    let compact = enabled_sources(ContextCompressionMode::GraphCompact, none);
    assert!(compact.graphify && !compact.vault && compact.pgvector);
    let older = EnabledSources {
        graphify: true,
        ..none
    };
    assert!(enabled_sources(ContextCompressionMode::Off, older).graphify);
}
