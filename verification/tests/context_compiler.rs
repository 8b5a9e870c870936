use std::io::{Read, Write};

use jcode::context::node::{
    is_generic_hub, is_non_production_source, parse_node, parse_nodes, rank_nodes, score_node,
};
use jcode::context::output::{
    raw_output_path, store_and_compact_tool_output, ToolOutputError, MAX_RAW_TOOL_ARTIFACT_BYTES,
};
use jcode::context::package::{
    compile_graphify_context, estimate_tokens, fixed_package_token_estimate,
    ContextRepresentationLevel,
};
use jcode::context::query::{
    graphify_call_intent, graphify_query_variants, meaningful_query_tokens, normalize_symbol_name,
    normalized_symbol_tokens, query_stem, symbol_hints,
};

const GRAPH: &str = r#"
Traversal: BFS depth=2 | Start: ['PaymentService.process'] | 4 nodes found
NODE PaymentClient.send [src=src/payment.rs loc=L42 community=payments]
NODE PaymentService.process [src=src/payment.rs loc=L10 community=payments]
NODE RetryPolicy [src=src/retry.rs loc=L3 community=retry]
NODE PaymentClient.send [src=src/payment.rs loc=L42 community=payments]
"#;

#[test]
fn compiles_task_roots_before_neighbors_and_deduplicates() {
    let compiled =
        compile_graphify_context("Fix timeout in PaymentService.process", GRAPH, 1_000, 10);

    assert_eq!(compiled.version, "1");
    assert_eq!(compiled.items.len(), 3);
    assert_eq!(compiled.deduplicated_items, 1);
    assert_eq!(compiled.items[0].name, "PaymentService.process");
    assert_eq!(compiled.items[0].reason, "task-root");
    assert_eq!(compiled.items[0].level, ContextRepresentationLevel::L1);
    assert!(compiled.items[0].revision.len() >= 16);
}

#[test]
fn enforces_item_and_token_budgets_without_dropping_all_roots() {
    let compiled = compile_graphify_context("PaymentService", GRAPH, 1, 1);

    assert_eq!(compiled.items.len(), 1);
    assert_eq!(compiled.items[0].name, "PaymentService.process");
    assert_eq!(compiled.dropped_items, 2);
}

#[test]
fn emitted_ir_is_valid_json_with_content_addressed_refs() {
    let compiled = compile_graphify_context("PaymentService", GRAPH, 1_000, 10);
    let value: serde_json::Value = serde_json::from_str(&compiled.to_prompt_json()).unwrap();

    assert_eq!(value["mode"], "graph_compact");
    assert!(value["root_nodes"][0].as_str().unwrap().starts_with('G'));
    assert!(compiled.estimated_tokens <= compiled.budget_tokens);
}

#[test]
fn query_decomposition_generates_exact_graphify_seeds() {
    let variants = graphify_query_variants("Trace Graphify memory enrichment call path");
    assert_eq!(variants.len(), 3);
    assert!(variants[2].contains("query_graphify"));
    assert!(variants[2].contains("memory_external"));
    assert!(variants[2].contains("enrich_context"));
    assert!(graphify_call_intent("trace the call path"));
}

#[test]
fn call_path_ranking_prefers_production_symbols_over_generic_tests() {
    let graph = r#"
NODE Path [src=crates/app/src/tests/onboarding_eval.rs loc=L1 community=Path]
NODE main() [src=scripts/benchmark_memory.py loc=L1 community=benchmark]
NODE query_graphify() [src=crates/jcode-base/src/memory_external.rs loc=L252 community=memory_external.rs]
NODE enrich_context() [src=crates/jcode-base/src/memory_external.rs loc=L196 community=memory_external.rs]
NODE process_context() [src=crates/jcode-base/src/memory_agent.rs loc=L499 community=memory_agent.rs]
NODE Session [src=crates/jcode-base/src/session.rs loc=L1 community=Session]
"#;
    let compiled = compile_graphify_context(
        "Trace Graphify memory enrichment call path",
        graph,
        1_200,
        6,
    );
    let top = compiled
        .items
        .iter()
        .take(3)
        .map(|item| item.name.as_str())
        .collect::<Vec<_>>();
    assert!(top.contains(&"query_graphify()"));
    assert!(top.contains(&"enrich_context()"));
    assert!(!top.contains(&"Path"));
    assert!(!top.contains(&"main()"));
}

// ---------------------------------------------------------------------------
// Queries
// ---------------------------------------------------------------------------

#[test]
fn words_that_count_are_kept_once() {
    assert_eq!(
        meaningful_query_tokens("Find THE parse_node, parse_node of äöü and é in x-ray"),
        ["parse_node", "äöü", "and", "ray"]
    );
    assert!(meaningful_query_tokens("the call path").is_empty());
}

#[test]
fn stems_lose_the_first_known_ending() {
    assert_eq!(query_stem("serialization"), "serial");
    assert_eq!(query_stem("compilation"), "compil");
    assert_eq!(query_stem("enrichment"), "enrich");
    assert_eq!(query_stem("ranking"), "ranking");
    assert_eq!(query_stem("budgeting"), "budget");
    assert_eq!(query_stem("selection"), "select");
    assert_eq!(query_stem("bounded"), "bound");
    assert_eq!(query_stem("tokens"), "token");
    assert_eq!(query_stem("nodes"), "nodes");
}

#[test]
fn a_task_without_words_is_its_own_query() {
    assert_eq!(graphify_query_variants("  the path "), ["the path"]);
    assert_eq!(graphify_query_variants(""), [""]);
}

#[test]
fn concepts_join_neighbouring_stems() {
    assert_eq!(
        graphify_query_variants("alpha budgets gammas"),
        [
            "alpha budgets gammas",
            "alpha budgets gammas budget gamma alpha_budget_gamma alpha_budget budget_gamma"
        ]
    );
    assert_eq!(graphify_query_variants(" alpha "), ["alpha"]);
}

#[test]
fn a_query_is_cut_at_its_limit() {
    let task = "w".repeat(150) + " " + &"v".repeat(150);
    let variants = graphify_query_variants(&task);
    assert_eq!(variants.len(), 2);
    assert_eq!(variants[1].chars().count(), 240);
}

#[test]
fn tasks_hint_at_symbols() {
    assert_eq!(
        symbol_hints("Tool output of the ENVIRONMENT override"),
        [
            "cap_tool_output_for_history",
            "store_and_compact_tool_output",
            "ContextCompressionMode",
            "apply_env_overrides"
        ]
    );
    assert_eq!(
        symbol_hints("provider messages"),
        ["messages_for_provider", "CompactionManager"]
    );
    assert!(symbol_hints("environment").is_empty());
    assert!(graphify_call_intent("who is the CALLER"));
    assert!(!graphify_call_intent("call it"));
}

#[test]
fn symbol_names_are_bared() {
    assert_eq!(normalize_symbol_name(".process_context()"), "process_context");
    assert_eq!(normalize_symbol_name("a::b()"), "a::b");
    assert_eq!(
        normalized_symbol_tokens("::PaymentClient.send_all()"),
        ["PaymentClient", "send", "all"]
    );
}

// ---------------------------------------------------------------------------
// Nodes
// ---------------------------------------------------------------------------

#[test]
fn a_node_is_read_from_its_line() {
    let node = parse_node("  NODE a [b] [src=x.rs loc= community=c d]  ", 7).unwrap();
    assert_eq!(node.name, "a [b]");
    assert_eq!(node.source.as_deref(), Some("x.rs"));
    assert_eq!(node.location, None);
    assert_eq!(node.community.as_deref(), Some("c"));
    assert_eq!(node.raw, "NODE a [b] [src=x.rs loc= community=c d]");
    assert_eq!(node.ordinal, 7);
    assert!(parse_node("NODE a", 0).is_none());
    assert!(parse_node("NODE a [src=x", 0).is_none());
    assert!(parse_node("EDGE a [src=x]", 0).is_none());
    assert!(parse_node("NODEa [src=x]", 0).is_none());
}

#[test]
fn lines_are_numbered_with_those_that_hold_no_node() {
    let nodes = parse_nodes("x\r\nNODE a [src=1]\r\n\r\nNODE b [src=2]");
    assert_eq!(nodes.len(), 2);
    assert_eq!((nodes[0].ordinal, nodes[1].ordinal), (1, 3));
}

#[test]
fn scores_are_exact() {
    let node = parse_node(
        "NODE PaymentService.process [src=src/payment.rs loc=L10 community=payments]",
        3,
    )
    .unwrap();
    // "payment" is part of the file and of the community, a part of the name,
    // but none of its divided parts.
    assert_eq!(score_node("payment", &node), 2_500 + 900 + 450 + 700 + 120 - 3);
    assert_eq!(score_node("process", &node), 6_000 + 700 + 120 - 3);
    let hub = parse_node("NODE Config [community=x]", 0).unwrap();
    assert_eq!(score_node("config", &hub), 15_000 - 5_000);
    let hinted = parse_node("NODE query_graphify() [src=docs/a.md]", 1).unwrap();
    assert_eq!(
        score_node("trace graphify", &hinted),
        25_000 + 6_000 + 1_500 - 4_000 + 100 - 1
    );
}

#[test]
fn sources_and_hubs_are_told_apart() {
    assert!(is_non_production_source("a/tests/b.rs"));
    assert!(is_non_production_source("a_test.rs"));
    assert!(is_non_production_source("scripts/x"));
    assert!(!is_non_production_source("src/scripts/x.rs"));
    assert!(is_generic_hub("(session)"));
    assert!(!is_generic_hub("sessions"));
}

#[test]
fn ranking_is_stable() {
    let nodes = parse_nodes("NODE a [x]\nNODE zzz_a [x]\nNODE b [x]\nNODE zzz_b [x]");
    let names: Vec<String> = rank_nodes("zzz", &nodes)
        .into_iter()
        .map(|node| node.name)
        .collect();
    assert_eq!(names, ["zzz_a", "zzz_b", "a", "b"]);
}

// ---------------------------------------------------------------------------
// Packages
// ---------------------------------------------------------------------------

#[test]
fn a_package_is_written_as_serde_would() {
    let graph = "NODE a\"b\\c\u{1} [src=x.rs community=é]\nNODE plain [y]";
    let compiled = compile_graphify_context(" \"task\"\n\t\u{8}\u{c}\r\u{1f} ", graph, 10_000, 5);
    let value: serde_json::Value = serde_json::from_str(&compiled.to_prompt_json()).unwrap();
    assert_eq!(value["version"], "1");
    assert_eq!(value["task"], compiled.task.as_str());
    assert_eq!(value["budget_tokens"], 10_000);
    assert_eq!(value["candidate_items"], 2);
    assert_eq!(value["deduplicated_items"], 0);
    assert_eq!(value["dropped_items"], 0);
    assert_eq!(value["estimated_tokens"], compiled.estimated_tokens);
    let items = value["items"].as_array().unwrap();
    assert_eq!(items.len(), 2);
    assert_eq!(items[0]["name"], "a\"b\\c\u{1}");
    assert_eq!(items[0]["kind"], "symbol");
    assert_eq!(items[0]["level"], "L1");
    assert_eq!(items[0]["community"], "é");
    assert!(items[0].get("location").is_none());
    assert_eq!(items[1]["kind"], "node");
    assert_eq!(items[1]["level"], "L0");
    assert!(items[1].get("source").is_none());
    assert_eq!(value["root_nodes"].as_array().unwrap().len(), 2);
}

#[test]
fn an_item_is_content_addressed() {
    let compiled = compile_graphify_context("x", "NODE n [src=s.py loc=L1]", 1_000, 5);
    let item = &compiled.items[0];
    assert_eq!(item.id.len(), 17);
    assert_eq!(compiled.root_nodes, [item.id.clone()]);
    let same = compile_graphify_context("y", "x\nNODE n [loc=L1 src=s.py]", 1_000, 5);
    assert_eq!(same.items[0].id, item.id);
    assert_ne!(same.items[0].revision, item.revision);
}

#[test]
fn every_candidate_is_accounted_for() {
    let mut graph = String::new();
    for index in 0..40 {
        graph.push_str(&format!("NODE node_{} [src=s{}.rs]\n", index % 30, index % 30));
    }
    for budget in [0, 1, 100, 300, 1_000, 100_000] {
        for max_items in [0, 1, 7, 100] {
            let compiled = compile_graphify_context("node_3 and node_7", &graph, budget, max_items);
            assert_eq!(compiled.candidate_items, 40);
            assert_eq!(compiled.deduplicated_items, 10);
            assert_eq!(
                compiled.candidate_items,
                compiled.deduplicated_items + compiled.dropped_items + compiled.items.len()
            );
            assert!(!compiled.items.is_empty());
            assert!(compiled.items.len() <= max_items.max(1));
            assert!(compiled.estimated_tokens <= budget || compiled.items.len() == 1);
            assert!(
                estimate_tokens(&compiled.to_prompt_json()) <= compiled.estimated_tokens + 5
            );
            assert_eq!(compiled.root_nodes.len(), compiled.items.len().min(3));
        }
    }
}

#[test]
fn an_empty_answer_makes_an_empty_package() {
    let compiled = compile_graphify_context("task", "nothing here", 100, 5);
    assert!(compiled.items.is_empty());
    assert!(compiled.root_nodes.is_empty());
    assert_eq!(compiled.candidate_items, 0);
    assert_eq!(
        compiled.to_prompt_json(),
        format!(
            "{{\"version\":\"1\",\"mode\":\"graph_compact\",\"task\":\"task\",\"root_nodes\":[],\
             \"items\":[],\"estimated_tokens\":{},\"budget_tokens\":100,\"candidate_items\":0,\
             \"deduplicated_items\":0,\"dropped_items\":0}}",
            compiled.estimated_tokens
        )
    );
}

#[test]
fn tokens_are_quarters_of_bytes() {
    assert_eq!(estimate_tokens(""), 0);
    assert_eq!(estimate_tokens("abcd"), 1);
    assert_eq!(estimate_tokens("abcde"), 2);
    assert_eq!(estimate_tokens("ééé"), 2);
    assert_eq!(fixed_package_token_estimate("abcde"), 50);
}

// ---------------------------------------------------------------------------
// Tool output
// ---------------------------------------------------------------------------

#[test]
fn oversized_tool_output_is_preserved_by_revision_and_compacted() {
    let dir = tempfile::tempdir().unwrap();
    let store = dir.path().to_str().unwrap();
    let raw = "test passed\n".repeat(1_000);
    let compacted = store_and_compact_tool_output("bash", &raw, 128, store, &None).unwrap();
    let name = std::path::Path::new(&compacted.raw_path)
        .file_name()
        .unwrap();
    let mut file = tempfile::Builder::new()
        .prefix(name)
        .rand_bytes(0)
        .tempfile_in(dir.path())
        .unwrap();
    file.write_all(raw.as_bytes()).unwrap();
    assert_eq!(file.path().to_str().unwrap(), compacted.raw_path);
    let mut kept = Vec::new();
    file.reopen().unwrap().read_to_end(&mut kept).unwrap();
    assert_eq!(kept, raw.as_bytes());
    let again = store_and_compact_tool_output("bash", &raw, 128, store, &Some(kept)).unwrap();
    assert_eq!(again.compact_content, compacted.compact_content);
    assert_eq!(compacted.raw_path, raw_output_path(store, &raw));
    assert!(compacted.raw_path.ends_with(".log"));
    assert_eq!(compacted.original_chars, 12_000);
    assert_eq!(compacted.kept_chars, 128);
    assert!(compacted.compact_content.starts_with(&raw[..128]));
    assert!(compacted
        .compact_content
        .contains("\"status\":\"TRUNCATED\""));
    assert!(compacted.compact_content.contains("\"raw_ref\""));
    assert!(compacted.compact_content.len() < raw.len());
    let note = &compacted.compact_content[130..];
    let value: serde_json::Value = serde_json::from_str(note).unwrap();
    assert_eq!(value["tool"], "bash");
    assert_eq!(value["original_chars"], 12_000);
    assert_eq!(value["kept_chars"], 128);
    assert_eq!(value["raw_ref"], compacted.raw_path.as_str());
}

#[test]
fn short_tool_output_is_kept_whole() {
    let kept = store_and_compact_tool_output("bash", "äöü", 3, "/store", &None).unwrap();
    assert_eq!(kept.compact_content, "äöü");
    assert_eq!(kept.raw_path, "");
    assert_eq!((kept.original_chars, kept.kept_chars), (3, 3));
}

#[test]
fn an_existing_artifact_must_hold_the_same_output() {
    let same = Some(b"output".to_vec());
    assert!(store_and_compact_tool_output("t", "output", 2, "/s", &same).is_ok());
    let other = Some(b"outpux".to_vec());
    let error = store_and_compact_tool_output("t", "output", 2, "/s", &other).unwrap_err();
    assert_eq!(error, ToolOutputError::RevisionCollision);
    assert_eq!(error.message(), "context-store revision collision");
    // What is short enough is not looked up.
    assert!(store_and_compact_tool_output("t", "output", 6, "/s", &other).is_ok());
}

#[test]
fn output_beyond_the_artifact_limit_is_refused() {
    let huge = "x".repeat(MAX_RAW_TOOL_ARTIFACT_BYTES + 1);
    let error = store_and_compact_tool_output("t", &huge, 10, "/s", &None).unwrap_err();
    assert_eq!(error, ToolOutputError::TooLarge);
    assert_eq!(
        error.message(),
        "tool output exceeds context-store artifact limit"
    );
}

#[test]
fn a_package_is_judged_by_its_first_items() {
    let raw = "NODE query_graphify() [src=a.rs loc=L1]\n\
               NODE other [src=b.rs loc=L2]\n\
               no node\n\
               NODE Enrich_Context() [src=c.rs loc=L3]\n";
    let compiled =
        jcode::context::package::compile_graphify_context("graphify enrichment", raw, 5_000, 24);
    let expected = vec![
        "enrich_context".to_string(),
        "query_graphify()".to_string(),
        "missing".to_string(),
    ];
    let judged = jcode::context::evaluation::judge(&expected, &compiled);
    assert_eq!(judged.top.len(), 3);
    assert_eq!(judged.hits, 2);
    assert_eq!(judged.first_rank, Some(1));
    assert_eq!(judged.irrelevant, 3);
    let nothing = jcode::context::evaluation::judge(&vec!["missing".to_string()], &compiled);
    assert_eq!(nothing.hits, 0);
    assert_eq!(nothing.first_rank, None);
    assert_eq!(nothing.irrelevant, 5);
    assert_eq!(jcode::context::evaluation::normalize("`.Main()`"), "main");
}

#[test]
fn a_package_is_compared_with_the_answer() {
    let raw = "NODE alpha [src=a.rs loc=L1]\nNODE beta\n NODE gamma [x]\n";
    let seen = jcode::context::evaluation::compare_with_raw("alpha", raw, 1_200, 24);
    assert_eq!(seen.raw_bytes, raw.len());
    assert_eq!(seen.raw_tokens, raw.len().div_ceil(4));
    assert_eq!(seen.candidates, 2);
    assert_eq!(seen.compiled.budget_tokens, seen.raw_tokens);
    assert_eq!(seen.compact_bytes, seen.compiled.to_prompt_json().len());
    assert_eq!(seen.compact_tokens, seen.compact_bytes.div_ceil(4));
    let small = jcode::context::evaluation::compare_with_raw("alpha", raw, 3, 24);
    assert_eq!(small.compiled.budget_tokens, 3);
}

#[test]
fn a_written_package_keeps_its_budget() {
    let raw: String = (0..24)
        .map(|index| format!("NODE n{index} [src=a loc=L{index}]\n"))
        .collect();
    let compile = |task: &str| {
        jcode::context::package::compile_graphify_context(task, &raw, 1_000, 24)
    };
    let written = |task: &str| {
        jcode::context::package::estimate_tokens(&compile(task).to_prompt_json())
    };
    // With all items the estimate would take one digit more than the package
    // was measured with, and the package one token more than allowed.
    let grown = "t".repeat(109);
    assert_eq!(compile(&grown).items.len(), 23);
    for length in 90..130 {
        let task = "t".repeat(length);
        assert!(written(&task) <= 1_000);
        assert!(compile(&task).estimated_tokens <= 1_000);
        assert!(compile(&task).items.len() >= 23);
    }
    let short = "t".repeat(100);
    assert_eq!(compile(&short).items.len(), 24);
    assert_eq!(written(&short), compile(&short).estimated_tokens);

    let two = format!("NODE {} []\nNODE b []\n", "a".repeat(3_541));
    let package = jcode::context::package::compile_graphify_context("", &two, 1_000, 2);
    assert_eq!(package.items.len(), 1);
    assert_eq!(package.dropped_items, 1);
    assert_eq!(package.budget_tokens, 1_000);
}

#[test]
fn references_do_not_depend_on_the_task() {
    let raw = "NODE alpha [src=a.rs loc=L1]\nNODE beta [community=c]\n";
    let one = jcode::context::package::compile_graphify_context("alpha", raw, 5_000, 24);
    let two = jcode::context::package::compile_graphify_context("beta", raw, 5_000, 24);
    let find = |package: &jcode::context::package::CompiledContext, name: &str| {
        let item = package.items.iter().find(|item| item.name == name).unwrap();
        (item.id.clone(), item.revision.clone(), format!("{:?}", item.level))
    };
    assert_eq!(find(&one, "alpha"), find(&two, "alpha"));
    assert_eq!(find(&one, "beta"), find(&two, "beta"));
    assert_eq!(find(&one, "alpha").2, "L1");
    assert_eq!(find(&one, "beta").2, "L0");
    assert_ne!(find(&one, "alpha").0, find(&one, "beta").0);
}
