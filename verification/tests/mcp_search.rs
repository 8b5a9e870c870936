use jcode::mcp::{search_tools, CatalogEntry, McpToolDef, SearchOptions};
use jcode::translate::{Json, Member};

fn member(key: &str, value: Json) -> Member {
    Member {
        key: key.to_string(),
        value,
    }
}

fn text(value: &str) -> Json {
    Json::Text(value.to_string())
}

fn schema() -> Json {
    Json::Object(vec![
        member("type", text("object")),
        member(
            "properties",
            Json::Object(vec![member(
                "query",
                Json::Object(vec![member("type", text("string"))]),
            )]),
        ),
    ])
}

fn tool(server: &str, name: &str, description: &str) -> CatalogEntry {
    CatalogEntry {
        server: server.to_string(),
        tool: McpToolDef {
            name: name.to_string(),
            description: Some(description.to_string()),
            input_schema: schema(),
        },
    }
}

fn bulk(count: usize) -> Vec<CatalogEntry> {
    (0..count)
        .map(|index| tool("bulk", &format!("tool_{index:03}"), "bulk operation"))
        .collect()
}

#[test]
fn ranks_exact_names_before_description_only_matches() {
    let catalog = vec![
        tool("analytics", "inspect_query", "Analyze PostgreSQL query performance"),
        tool("postgres", "query_performance", "Run a generic database operation"),
        tool("files", "search_files", "Find reports about query performance"),
    ];

    let page = search_tools(
        &catalog,
        &SearchOptions {
            query: Some("query performance".to_string()),
            ..SearchOptions::default()
        },
    );

    assert_eq!(page.matches[0].server, "postgres");
    assert_eq!(page.matches[0].tool, "query_performance");
    assert!(page.matches[0].score > page.matches[1].score);
}

#[test]
fn returns_a_bounded_page_with_stable_pagination_metadata() {
    let catalog = bulk(100);

    let page = search_tools(
        &catalog,
        &SearchOptions {
            query: Some("bulk".to_string()),
            limit: 7,
            offset: 14,
            ..SearchOptions::default()
        },
    );

    assert_eq!(page.total, 100);
    assert_eq!(page.offset, 14);
    assert_eq!(page.limit, 7);
    assert_eq!(page.matches.len(), 7);
    assert!(page.has_more);
    assert_eq!(page.matches[0].tool, "tool_014");
}

#[test]
fn clamps_requested_page_size_to_the_public_maximum() {
    let catalog = bulk(100);

    let page = search_tools(
        &catalog,
        &SearchOptions {
            limit: usize::MAX,
            ..SearchOptions::default()
        },
    );

    assert_eq!(page.limit, 50);
    assert_eq!(page.matches.len(), 50);
}

#[test]
fn omits_schemas_until_the_model_explicitly_requests_them() {
    let catalog = vec![tool("postgres", "explain_query", "Explain a SQL query plan")];

    let compact = search_tools(&catalog, &SearchOptions::default());
    assert!(compact.matches[0].input_schema.is_none());

    let detailed = search_tools(
        &catalog,
        &SearchOptions {
            include_schema: true,
            ..SearchOptions::default()
        },
    );
    assert_eq!(detailed.matches[0].input_schema, Some(&schema()));
}

#[test]
fn applies_an_exact_server_filter_before_ranking() {
    let catalog = vec![
        tool("postgres-primary", "search", "Search PostgreSQL records"),
        tool("postgres-archive", "search", "Search PostgreSQL records"),
    ];

    let page = search_tools(
        &catalog,
        &SearchOptions {
            server: Some("postgres-archive".to_string()),
            query: Some("search".to_string()),
            ..SearchOptions::default()
        },
    );

    assert_eq!(page.total, 1);
    assert_eq!(page.matches[0].server, "postgres-archive");
}

#[test]
fn limits_schema_expansion_to_five_shortlisted_tools() {
    let catalog = bulk(20);
    let page = search_tools(
        &catalog,
        &SearchOptions {
            limit: 50,
            include_schema: true,
            ..SearchOptions::default()
        },
    );
    assert_eq!(page.limit, 5);
    assert_eq!(page.matches.len(), 5);
    assert!(page.has_more);
}

#[test]
fn searches_a_large_catalog_without_expanding_its_schemas() {
    let mut catalog = bulk(10_000);
    catalog.push(tool("postgres", "vacuum", "Reclaim storage"));
    let page = search_tools(
        &catalog,
        &SearchOptions {
            query: Some("reclaim storage".to_string()),
            ..SearchOptions::default()
        },
    );
    assert_eq!(page.total, 1);
    assert_eq!(page.matches[0].tool, "vacuum");
    assert!(page.matches[0].input_schema.is_none());
    assert!(!page.has_more);
}

#[test]
fn equal_scores_are_ordered_by_server_and_name() {
    let catalog = vec![
        tool("b", "two", "x"),
        tool("b", "one", "x"),
        tool("a", "two", "x"),
        tool("ab", "one", "x"),
    ];
    let page = search_tools(&catalog, &SearchOptions::default());
    let order: Vec<(&str, &str)> = page
        .matches
        .iter()
        .map(|found| (found.server.as_str(), found.tool.as_str()))
        .collect();
    assert_eq!(order, [("a", "two"), ("ab", "one"), ("b", "one"), ("b", "two")]);
}

#[test]
fn grades_are_never_outweighed_by_words() {
    let words = "alpha beta gamma delta epsilon";
    let catalog = vec![
        tool("words", "epsilon delta gamma beta alpha", "gamma beta alpha epsilon delta"),
        tool("told", "x", "before alpha beta gamma delta epsilon after"),
        tool("alpha-beta_gamma delta epsilon", "y", "z"),
        tool("inside", "a_alpha_beta_gamma_delta_epsilon_b", "z"),
        tool("exact", "Alpha_Beta_Gamma_Delta_Epsilon", "z"),
        tool("none", "nothing", "nothing"),
    ];
    let page = search_tools(
        &catalog,
        &SearchOptions {
            query: Some(words.to_string()),
            ..SearchOptions::default()
        },
    );
    let order: Vec<&str> = page
        .matches
        .iter()
        .map(|found| found.server.as_str())
        .collect();
    assert_eq!(
        order,
        ["exact", "alpha-beta_gamma delta epsilon", "inside", "told", "words"]
    );
    assert_eq!(page.matches[4].score, 1_000_000 + 4 * 5 + 5);
    assert_eq!(page.matches[0].score, 5_000_000 + 4 * 5);
}

#[test]
fn pages_fit_together() {
    let catalog = bulk(23);
    let mut seen = Vec::new();
    let mut offset = 0;
    loop {
        let page = search_tools(
            &catalog,
            &SearchOptions {
                offset,
                ..SearchOptions::default()
            },
        );
        assert_eq!(page.total, 23);
        seen.extend(page.matches.iter().map(|found| found.tool.clone()));
        offset += page.matches.len();
        if !page.has_more {
            break;
        }
    }
    let all: Vec<String> = (0..23).map(|index| format!("tool_{index:03}")).collect();
    assert_eq!(seen, all);
    let beyond = search_tools(
        &catalog,
        &SearchOptions {
            offset: 40,
            ..SearchOptions::default()
        },
    );
    assert!(beyond.matches.is_empty());
    assert!(!beyond.has_more);
}
