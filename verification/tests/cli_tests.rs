use vault_layer::cli::{
    after_batch, embedding_rows_sql, embedding_write_script, hybrid_candidates_sql, SyncStep,
};
use vault_layer::cli::{
    command_for, context_sql, duckdb_column_names_for, embedding_script, fastembed_output,
    fastembed_request_json, first_cell_count, get_note_sql, index_plan, is_duckdb_path,
    json_string, keep_existing_index, like_search_sql, mcp_tool_sql, parse_tab_rows,
    parse_uint, pipeline_batches, progress_due, related_sql, require_db, search_sql,
    second_cells, serve_outcome, split_query, sqlite_fts_query, sqlite_fts_search_sql,
    state_dir_from_args, CliOptions, Command, EmbeddingKind, EmbeddingProvider, IndexPlan,
    QueryShape, ServeOutcome, MCP_READY_JSON, MCP_TOOLS_JSON, SERVE_MCP_ONLY,
};
use vault_layer::{turso_pipeline_request_json, StorageBackendKind};

fn args(items: &[&str]) -> Vec<String> {
    items.iter().map(|s| s.to_string()).collect()
}

#[test]
fn commands_are_recognised() {
    assert_eq!(command_for(None), Command::Help);
    assert_eq!(command_for(Some("--help")), Command::Help);
    assert_eq!(command_for(Some("index")), Command::Index);
    assert_eq!(command_for(Some("hybrid-search")), Command::HybridSearch);
    assert_eq!(command_for(Some("sqlite-vec-info")), Command::SqliteVecInfo);
    assert_eq!(command_for(Some("launch")), Command::Unknown);
}

#[test]
fn options_are_read_left_to_right() {
    let o = CliOptions::parse(args(&[
        "--db", "x.db", "--limit=5", "--model", "fastembed", "--mcp", "--json", "--force",
        "--query=hello world", "--call", "vault_search", "stray",
    ]));
    assert_eq!(o.db, Some("x.db".to_string()));
    assert_eq!(o.limit, Some(5));
    assert_eq!(o.embedding_model, Some("fastembed".to_string()));
    assert!(o.mcp);
    assert!(o.force);
    assert!(!o.list_tools);
    assert!(!o.remote_sync);
    assert_eq!(o.query, Some("hello world".to_string()));
    assert_eq!(o.call, Some("vault_search".to_string()));
}

#[test]
fn option_values_follow_str_rules() {
    let o = CliOptions::parse(args(&["--limit", "abc"]));
    assert_eq!(o.limit, None);
    let o = CliOptions::parse(args(&["--limit", "+7"]));
    assert_eq!(o.limit, Some(7));
    let o = CliOptions::parse(args(&["--limit=4294967296"]));
    assert_eq!(o.limit, None);
    let o = CliOptions::parse(args(&["--limit=3", "--limit"]));
    assert_eq!(o.limit, None);
    let o = CliOptions::parse(args(&["--db=--db=a.db"]));
    assert_eq!(o.db, Some("a.db".to_string()));
    let o = CliOptions::parse(args(&["--db", "--mcp"]));
    assert_eq!(o.db, Some("--mcp".to_string()));
    assert!(!o.mcp);
    let o = CliOptions::parse(args(&["--list-tools", "--remote-sync"]));
    assert!(o.list_tools);
    assert!(o.remote_sync);
}

#[test]
fn unsigned_numbers_parse_like_std() {
    assert_eq!(parse_uint("42", 100), Some(42));
    assert_eq!(parse_uint("+42", 100), Some(42));
    assert_eq!(parse_uint("101", 100), None);
    assert_eq!(parse_uint("", 100), None);
    assert_eq!(parse_uint("+", 100), None);
    assert_eq!(parse_uint("-1", 100), None);
    assert_eq!(parse_uint("1 ", 100), None);
    assert_eq!(parse_uint("18446744073709551615", u64::MAX), Some(u64::MAX));
}

#[test]
fn positional_query_and_state_dir() {
    let (q, rest) = split_query(args(&["needle", "--db", "x"]));
    assert_eq!(q, "needle");
    assert_eq!(rest, args(&["--db", "x"]));
    let (q, rest) = split_query(Vec::new());
    assert_eq!(q, "");
    assert!(rest.is_empty());
    assert_eq!(state_dir_from_args(args(&["v", "--state-dir", "/s"])), Some("/s".to_string()));
    assert_eq!(state_dir_from_args(args(&["--state-dir=/t", "--state-dir", "/s"])), Some("/t".to_string()));
    assert_eq!(state_dir_from_args(args(&["v", "--state-dir"])), None);
    assert_eq!(state_dir_from_args(args(&["v"])), None);
}

#[test]
fn retrieval_needs_a_database() {
    let o = CliOptions::parse(args(&["--limit", "2"]));
    assert_eq!(
        require_db(&o),
        Err("--db <PATH> is required for retrieval commands until config files are implemented".to_string())
    );
    let o = CliOptions::parse(args(&["--db", "a.db"]));
    assert_eq!(require_db(&o), Ok("a.db".to_string()));
}

#[test]
fn duckdb_files_are_told_by_extension() {
    assert!(is_duckdb_path("/tmp/x.duckdb"));
    assert!(is_duckdb_path("rel/x.duckdb/"));
    assert!(!is_duckdb_path("/tmp/.duckdb"));
    assert!(!is_duckdb_path("/tmp/x.db"));
    assert!(!is_duckdb_path("/tmp/duckdb"));
    assert!(!is_duckdb_path("x.duckdb/.."));
}

#[test]
fn output_json_escapes_three_characters() {
    assert_eq!(json_string("a\"b\\c\nd\te"), "\"a\\\"b\\\\c\\nd\te\"");
}

#[test]
fn fts_queries_quote_each_term() {
    assert_eq!(sqlite_fts_query("hello, world!"), "\"hello\" AND \"world\"");
    assert_eq!(sqlite_fts_query("  ...  "), "");
    assert_eq!(sqlite_fts_query("a\"b -x_"), "\"a\"\"b\" AND \"-x_\"");
    assert_eq!(sqlite_fts_query("héllo wörld"), "\"héllo\" AND \"wörld\"");
}

#[test]
fn fts_search_sql_has_bm25_and_limits() {
    let sql = sqlite_fts_search_sql("agent vault", 5, 240);
    assert_eq!(
        sql,
        "SELECT s.id AS chunk_id, n.path, s.heading_path, substr(s.text, 1, 240) AS excerpt, bm25(sections_fts) * -1.0 AS score, s.content_hash, n.modified_unix, s.human_relevance_score FROM sections_fts JOIN sections s ON s.id = sections_fts.id JOIN notes n ON n.id = s.note_id WHERE sections_fts MATCH '\"agent\" AND \"vault\"' ORDER BY score DESC, s.human_relevance_score DESC, n.modified_unix DESC LIMIT 5;"
    );
    assert!(sqlite_fts_search_sql("!!", 5, 240).ends_with("WHERE 0 LIMIT 0;"));
}

#[test]
fn search_and_context_pick_the_query_by_database() {
    let duck = search_sql("o'k", None, "/x/idx.duckdb");
    assert_eq!(duck, like_search_sql("o'k", 10));
    assert!(duck.contains("LIKE '%o''k%'"));
    assert!(duck.ends_with("LIMIT 10;"));
    let lite = search_sql("ok", Some(3), "/x/idx.db");
    assert_eq!(lite, sqlite_fts_search_sql("ok", 3, 240));
    let ctx = context_sql("ok", None, "/x/idx.db");
    assert_eq!(ctx, sqlite_fts_search_sql("ok", 8, 700));
    let ctx = context_sql("ok", Some(2), "/x/idx.duckdb");
    assert!(ctx.contains("substr(s.text, 1, 700)"));
    assert!(ctx.ends_with(" LIMIT 2;"));
}

#[test]
fn note_and_related_queries_quote_the_needle() {
    let sql = get_note_sql("a'b");
    assert!(sql.contains("WHERE n.id = 'a''b' OR n.path = 'a''b' OR n.path LIKE '%a''b%' GROUP BY"));
    let sql = related_sql("x");
    assert!(sql.starts_with("WITH base AS (SELECT id, path FROM notes WHERE id = 'x' OR path = 'x' OR path LIKE '%x%' LIMIT 1)"));
    assert!(sql.ends_with("LIMIT 25;"));
}

/// The output names of a query's first `SELECT` list (or the last one, for
/// a query that starts with `WITH`): an alias after ` AS `, else the text
/// after the last `.`.
fn selected_names(sql: &str) -> Vec<String> {
    let start = if sql.starts_with("WITH") {
        sql.rfind(") SELECT ").expect("final select") + ") SELECT ".len()
    } else {
        "SELECT ".len()
    };
    let rest = &sql[start..];
    let mut items = Vec::new();
    let mut depth = 0i32;
    let mut current = String::new();
    let mut in_quote = false;
    let mut chars = rest.chars().peekable();
    while let Some(c) = chars.next() {
        if c == '\'' {
            in_quote = !in_quote;
        }
        if !in_quote {
            if c == '(' {
                depth += 1;
            } else if c == ')' {
                depth -= 1;
            }
        }
        if depth == 0 && !in_quote && c == ',' {
            items.push(current.trim().to_string());
            current.clear();
            continue;
        }
        if depth == 0 && !in_quote && current.ends_with(" FROM") && c == ' ' {
            let item = current.trim_end_matches(" FROM").trim().to_string();
            items.push(item);
            current.clear();
            break;
        }
        current.push(c);
    }
    items
        .iter()
        .map(|item| match item.rfind(" AS ") {
            Some(k) => item[k + 4..].to_string(),
            None => item.rsplit('.').next().unwrap_or(item).to_string(),
        })
        .collect()
}

#[test]
fn column_names_follow_query_shape() {
    assert_eq!(duckdb_column_names_for(QueryShape::Search), selected_names(&like_search_sql("x", 1)));
    assert_eq!(
        duckdb_column_names_for(QueryShape::Context),
        selected_names(&context_sql("x", None, "/a/b.duckdb"))
    );
    assert_eq!(duckdb_column_names_for(QueryShape::Context).len(), 7);
    assert_eq!(duckdb_column_names_for(QueryShape::Context)[4], "content_hash");
    assert_eq!(duckdb_column_names_for(QueryShape::Note), selected_names(&get_note_sql("x")));
    assert_eq!(
        duckdb_column_names_for(QueryShape::Related),
        vec!["kind".to_string(), "relation".to_string(), "evidence".to_string()]
    );
    assert_eq!(duckdb_column_names_for(QueryShape::Related), selected_names(&related_sql("x")));
}

#[test]
fn query_text_cannot_change_column_names() {
    let o = CliOptions::parse(args(&["--mcp", "--call", "vault_search", "--db", "d.duckdb", "--query", "bounded_content AS kind relation"]));
    match serve_outcome(&o) {
        Ok(ServeOutcome::Query { shape, .. }) => assert_eq!(shape, QueryShape::Search),
        other => panic!("unexpected {other:?}"),
    }
}

#[test]
fn embedding_providers_by_name() {
    assert_eq!(EmbeddingProvider::from_model_option(None), Ok(EmbeddingProvider::Deterministic));
    assert_eq!(EmbeddingProvider::from_model_option(Some("  ")), Ok(EmbeddingProvider::Deterministic));
    assert_eq!(
        EmbeddingProvider::from_model_option(Some(" All-MiniLM-L6-v2 ")),
        Ok(EmbeddingProvider::FastEmbedMiniLm)
    );
    assert_eq!(
        EmbeddingProvider::from_model_option(Some(" Big-Model ")),
        Err("unknown embedding model 'big-model'; supported: deterministic-v0, fastembed-mini-lm".to_string())
    );
    assert_eq!(EmbeddingProvider::Deterministic.model_name(), "deterministic-v0");
    assert_eq!(
        EmbeddingProvider::FastEmbedMiniLm.model_name(),
        "fastembed:sentence-transformers/all-MiniLM-L6-v2"
    );
}

#[test]
fn fastembed_request_and_reply() {
    let texts = args(&["a\"b", "c"]);
    assert_eq!(
        fastembed_request_json(EmbeddingKind::Query, "/cache", &texts),
        "{\"kind\":\"query\",\"cache_dir\":\"/cache\",\"texts\":[\"a\\\"b\",\"c\"]}"
    );
    assert_eq!(
        fastembed_output("", 1),
        Err("fastembed helper returned no metadata".to_string())
    );
    assert_eq!(
        fastembed_output("other\n[1]\n", 1),
        Err("unexpected fastembed metadata: other".to_string())
    );
    assert_eq!(
        fastembed_output("{\"model\":\"fastembed:sentence-transformers/all-MiniLM-L6-v2\"}\n[1]\n", 2),
        Err("fastembed helper returned 1 vectors for 2 texts".to_string())
    );
    assert_eq!(
        fastembed_output("model fastembed:sentence-transformers/all-MiniLM-L6-v2\n[1]\n[2]", 2),
        Ok(args(&["[1]", "[2]"]))
    );
}

#[test]
fn mcp_serve_answers() {
    let o = CliOptions::parse(Vec::new());
    assert_eq!(serve_outcome(&o), Ok(ServeOutcome::Print(SERVE_MCP_ONLY.to_string())));
    let o = CliOptions::parse(args(&["--mcp", "--list-tools"]));
    assert_eq!(serve_outcome(&o), Ok(ServeOutcome::Print(MCP_TOOLS_JSON.to_string())));
    let o = CliOptions::parse(args(&["--mcp"]));
    assert_eq!(serve_outcome(&o), Ok(ServeOutcome::Print(MCP_READY_JSON.to_string())));
    let o = CliOptions::parse(args(&["--mcp", "--call", "vault_search"]));
    assert!(serve_outcome(&o).is_err());
    let o = CliOptions::parse(args(&["--mcp", "--call", "vault_related", "--db", "d.db", "--query", "n"]));
    assert_eq!(
        serve_outcome(&o),
        Ok(ServeOutcome::Query { db: "d.db".to_string(), sql: related_sql("n"), shape: QueryShape::Related })
    );
    assert_eq!(
        mcp_tool_sql("vault_delete", "x", None),
        Err("unknown MCP tool: vault_delete".to_string())
    );
    assert_eq!(mcp_tool_sql("vault_get_note", "x", None), Ok(get_note_sql("x")));
    assert_eq!(mcp_tool_sql("vault_search", "x", Some(4)), Ok(like_search_sql("x", 4)));
}

#[test]
fn sqlite_tables_and_counts() {
    let rows = parse_tab_rows("a\tb\tc\r\n\nx\n");
    assert_eq!(rows, vec![args(&["a", "b", "c"]), args(&[""]), args(&["x"])]);
    assert_eq!(first_cell_count(&parse_tab_rows("12\n")), Some(12));
    assert_eq!(first_cell_count(&parse_tab_rows("many\n")), None);
    assert_eq!(first_cell_count(&Vec::new()), None);
    assert_eq!(second_cells(&rows), args(&["b"]));
}

#[test]
fn embedding_script_replaces_one_model() {
    let rows = vec![args(&["c1", "t1"]), args(&["short"]), args(&["c3", "t3"])];
    let embs = args(&["[1]", "[2]", "[3]"]);
    let sql = embedding_script("m'1", 8, &rows, &embs);
    assert_eq!(
        sql,
        "PRAGMA foreign_keys = ON;\nBEGIN; DELETE FROM embeddings WHERE model = 'm''1';\n\
INSERT OR REPLACE INTO embeddings(chunk_id, model, dimensions, embedding_json, embedded_at_unix) VALUES('c1', 'm''1', 8, '[1]', strftime('%s','now'));\n\
INSERT OR REPLACE INTO embeddings(chunk_id, model, dimensions, embedding_json, embedded_at_unix) VALUES('c3', 'm''1', 8, '[3]', strftime('%s','now'));\n\
COMMIT;\n"
    );
}

#[test]
fn statements_go_out_in_batches() {
    let stmts = args(&["A", "B", "C"]);
    let bodies = pipeline_batches(&stmts, 2);
    assert_eq!(
        bodies,
        vec![
            turso_pipeline_request_json(&args(&["A", "B"])),
            turso_pipeline_request_json(&args(&["C"])),
        ]
    );
    assert_eq!(pipeline_batches(&stmts, 0).len(), 3);
    assert!(pipeline_batches(&Vec::new(), 200).is_empty());
}

#[test]
fn indexing_decisions() {
    assert_eq!(index_plan(StorageBackendKind::TursoRemote, false), IndexPlan::RefuseRemote);
    assert_eq!(index_plan(StorageBackendKind::TursoRemote, true), IndexPlan::SyncRemote);
    assert_eq!(index_plan(StorageBackendKind::LocalSqlite, true), IndexPlan::WriteSqlite);
    assert_eq!(index_plan(StorageBackendKind::LocalDuckdb, false), IndexPlan::WriteDuckdb);
    assert_eq!(index_plan(StorageBackendKind::LocalLibsql, false), IndexPlan::WriteLibsql);
    assert!(keep_existing_index(false, true, Some(3), 3));
    assert!(!keep_existing_index(true, true, Some(3), 3));
    assert!(!keep_existing_index(false, true, None, 3));
    assert!(!keep_existing_index(false, false, Some(3), 3));
    assert!(progress_due(5));
    assert!(!progress_due(6));
    assert!(progress_due(1000));
}

#[test]
fn vector_queries_name_the_model() {
    let sql = embedding_rows_sql("deterministic-v0");
    assert!(sql.ends_with("WHERE e.model = 'deterministic-v0';"));
    assert_eq!(hybrid_candidates_sql("m", "!!", 3), None);
    let sql = hybrid_candidates_sql("m", "agent", 3).expect("terms");
    assert!(sql.contains("AND e.model = 'm' WHERE sections_fts MATCH '\"agent\"'"));
    assert!(sql.ends_with("ORDER BY fts_score DESC LIMIT 36;"));
    let sql = hybrid_candidates_sql("m", "agent", 1).expect("terms");
    assert!(sql.ends_with("LIMIT 25;"));
}

#[test]
fn embedding_write_checks_the_vector_count() {
    let rows = vec![args(&["c1", "t1"]), args(&["c2", "t2"])];
    let embs = args(&["[1]"]);
    assert_eq!(
        embedding_write_script("m", 4, &rows, &embs),
        Err("embedding provider returned mismatched row count".to_string())
    );
    let embs = args(&["[1]", "[2]"]);
    assert_eq!(
        embedding_write_script("m", 4, &rows, &embs),
        Ok(embedding_script("m", 4, &rows, &embs))
    );
}

#[test]
fn sync_stops_at_the_first_failed_batch() {
    assert_eq!(after_batch(0, 3, true, ""), Ok(SyncStep::Send(1)));
    assert_eq!(after_batch(2, 3, true, "ok"), Ok(SyncStep::Done(3)));
    assert_eq!(
        after_batch(1, 3, false, "boom"),
        Err("curl batch 1 failed: boom".to_string())
    );
}

#[test]
fn vector_queries_keep_rows_on_one_line() {
    let sql = embedding_rows_sql("m");
    assert!(sql.contains("replace(replace(s.text, char(10), ' '), char(9), ' ')"));
    assert!(!sql.contains(", s.text FROM"));
    let sql = hybrid_candidates_sql("m", "agent", 3).expect("terms");
    assert!(sql.contains("replace(replace(s.text, char(10), ' '), char(9), ' ')"));
}
