use vault_layer::config::default_state_dir_from;
use vault_layer::note::{relevance_signal, RelevanceDefault};
use vault_layer::scan::{
    entry_action, limit_reached, note_paths, order_and_limit, path_le, relative_note_path,
    EntryAction, VaultEntry,
};
use vault_layer::{
    is_inside, parse_note, scan_from_sources, sql_literal, sqlite_write_script, stable_hash,
    stable_id, turso_pipeline_request_json, turso_pipeline_url, turso_sync_statements,
    duckdb_sync_statements, json_string, NoteSource, RuntimeConfig, StorageBackendConfig,
    StorageBackendKind, COMMANDS, LIBSQL_VECTOR_TARGET_SQL,
};

#[test]
fn default_database_path_uses_external_state_dir() {
    let config = RuntimeConfig::new(
        "/tmp/example-vault",
        Some("/tmp/vault-layer-state".to_string()),
        None,
        None,
    )
    .expect("valid config");
    assert_eq!(
        config.database_path("demo"),
        "/tmp/vault-layer-state/demo/vault-layer.db".to_string()
    );
}

#[test]
fn rejects_state_dir_inside_vault() {
    let error = RuntimeConfig::new(
        "/tmp/example-vault",
        Some("/tmp/example-vault/.vault-layer".to_string()),
        None,
        None,
    )
    .expect_err("state inside vault must be rejected");
    assert!(error.contains("outside the vault"));
}

#[test]
fn command_surface_mentions_first_mvp_commands() {
    for command in ["init", "index", "search", "context", "serve"] {
        assert!(COMMANDS.contains(&command));
    }
}

#[test]
fn local_duckdb_is_analytics_sidecar_backend() {
    let config = StorageBackendConfig::local_duckdb();
    assert_eq!(config.kind, StorageBackendKind::LocalDuckdb);
    assert_eq!(config.backend_name(), "duckdb");
    assert_eq!(config.index_write_mode(), "implemented-analytics-sidecar");
    assert_eq!(
        config.vector_mode(),
        "duckdb-analytics-portable-json-cosine"
    );
    assert!(config.database_url.is_none());
    assert!(!config.auth_token_present);
}

#[test]
fn local_libsql_needs_no_url_or_token() {
    let config = StorageBackendConfig::local_libsql();
    assert_eq!(config.kind, StorageBackendKind::LocalLibsql);
    assert_eq!(config.backend_name(), "libsql-local");
    assert_eq!(
        config.index_write_mode(),
        "implemented-local-open-source-libsql"
    );
    assert_eq!(config.vector_mode(), "portable-json-cosine-on-libsql");
    assert!(config.database_url.is_none());
    assert!(!config.auth_token_present);
}

#[test]
fn turso_pipeline_url_maps_libsql_to_http_api() {
    assert_eq!(
        turso_pipeline_url("libsql://demo-viggo.turso.io").expect("url"),
        "https://demo-viggo.turso.io/v2/pipeline"
    );
}

#[test]
fn turso_pipeline_request_contains_executable_sql() {
    let body = turso_pipeline_request_json(&[
        "CREATE TABLE demo(id TEXT)".to_string(),
        "INSERT INTO demo(id) VALUES('a')".to_string(),
    ]);
    assert!(body.contains("\"type\":\"execute\""));
    assert!(body.contains("CREATE TABLE demo"));
    assert!(body.contains("INSERT INTO demo"));
}

#[test]
fn local_sqlite_is_default_backend() {
    let config = StorageBackendConfig::local_sqlite();
    assert_eq!(config.backend_name(), "sqlite");
    assert_eq!(
        config.index_write_mode(),
        "implemented-primary-local-retrieval"
    );
    assert_eq!(
        config.vector_mode(),
        "sqlite-vec-target-json-cosine-fallback"
    );
}

#[test]
fn turso_backend_is_explicit_and_vector_ready_target() {
    let config = StorageBackendConfig {
        kind: StorageBackendKind::TursoRemote,
        database_url: Some("libsql://example.turso.io".to_string()),
        auth_token_present: true,
    };
    assert_eq!(config.backend_name(), "turso-libsql");
    assert_eq!(
        config.index_write_mode(),
        "implemented-explicit-remote-sync"
    );
    assert_eq!(config.vector_mode(), "native-libsql-vector-target");
    assert!(LIBSQL_VECTOR_TARGET_SQL.contains("F32_BLOB"));
    assert!(LIBSQL_VECTOR_TARGET_SQL.contains("libsql_vector_idx"));
}

// ---------------------------------------------------------------------------
// Notes
// ---------------------------------------------------------------------------

const FIXTURE: &str = "---\ntitle: Agent Vault\ntype: project\nhuman_relevance_score: 0.8\n---\n# Intro\nHello [[Other Note|alias]] #project/agent\n## Next\nMore text\n";

#[test]
fn parses_note_frontmatter_headings_wikilinks_and_tags() {
    let note = parse_note("vault_x", "Projects/Test Note.md", FIXTURE, 7).expect("parse note");
    assert_eq!(note.path, "Projects/Test Note.md");
    assert_eq!(note.title, "Agent Vault");
    assert!(note
        .frontmatter
        .contains(&("type".to_string(), "project".to_string())));
    assert_eq!(note.relevance.explicit_values, vec!["0.8".to_string()]);
    assert_eq!(note.links[0].target, "Other Note");
    assert_eq!(note.links[0].raw, "[[Other Note|alias]]");
    assert_eq!(note.links[0].source_note_id, note.id);
    assert!(note.tags.contains(&"project/agent".to_string()));
    assert_eq!(note.sections.len(), 2);
    assert_eq!(note.sections[0].heading_path, "Intro");
    assert_eq!(note.sections[0].level, 1);
    assert_eq!(note.sections[0].text, "Hello [[Other Note|alias]] #project/agent");
    assert_eq!(note.sections[1].heading_path, "Next");
    assert_eq!(note.sections[1].level, 2);
    assert_eq!(note.sections[1].text, "More text");
    assert_eq!(note.modified_unix, 7);
    assert_eq!(note.content_hash, stable_hash(FIXTURE));
}

#[test]
fn note_id_follows_vault_path_and_content() {
    let note = parse_note("vault_x", "a.md", "# A\ntext", 0).expect("parse");
    let expected = stable_id("note", &format!("vault_x:a.md:{}", stable_hash("# A\ntext")));
    assert_eq!(note.id, expected);
    assert!(note.id.starts_with("note_"));
    assert_eq!(note.id.len(), "note_".len() + 16);
}

#[test]
fn duplicate_headings_with_same_text_get_unique_section_ids() {
    let note = parse_note("vault_x", "dupes.md", "# Repeat\nsame text\n# Repeat\nsame text", 0)
        .expect("parse");
    assert_eq!(note.sections.len(), 2);
    assert_ne!(note.sections[0].id, note.sections[1].id);
    assert_eq!(note.sections[0].content_hash, note.sections[1].content_hash);
}

#[test]
fn section_id_hashes_note_heading_ordinal_and_text_hash() {
    let note = parse_note("v", "n.md", "# H\nbody", 0).expect("parse");
    let key = format!("{}:H:1:{}", note.id, stable_hash("body"));
    assert_eq!(note.sections[0].id, stable_id("chunk", &key));
}

#[test]
fn blank_root_section_is_dropped_but_text_before_a_heading_is_kept() {
    let without = parse_note("v", "n.md", "\n\n# H\nx", 0).expect("parse");
    assert_eq!(without.sections.len(), 1);
    let with = parse_note("v", "n.md", "lead\n# H\nx", 0).expect("parse");
    assert_eq!(with.sections.len(), 2);
    assert_eq!(with.sections[0].heading_path, "root");
    assert_eq!(with.sections[0].level, 0);
    assert_eq!(with.sections[0].text, "lead");
}

#[test]
fn human_relevance_defaults_system_paths_lower() {
    let note = parse_note("v", "system/agent.md", "# Agent\nsystem context", 0).expect("parse");
    assert!(note.relevance.explicit_values.is_empty());
    assert_eq!(note.relevance.fallback, RelevanceDefault::SystemPath);
}

#[test]
fn human_relevance_defaults_follow_audience() {
    let fm = vec![("audience".to_string(), "SYSTEM".to_string())];
    assert_eq!(relevance_signal(&fm, "notes/a.md").fallback, RelevanceDefault::SystemOnly);
    let fm = vec![("system_only".to_string(), "yes".to_string())];
    assert_eq!(relevance_signal(&fm, "notes/a.md").fallback, RelevanceDefault::SystemOnly);
    let fm = vec![("audience".to_string(), "Human".to_string())];
    assert_eq!(relevance_signal(&fm, "system/a.md").fallback, RelevanceDefault::Human);
    assert_eq!(relevance_signal(&Vec::new(), "x/system/a.md").fallback, RelevanceDefault::SystemPath);
    assert_eq!(relevance_signal(&Vec::new(), "notes/a.md").fallback, RelevanceDefault::Neutral);
}

#[test]
fn explicit_relevance_values_come_in_order_of_precedence() {
    let fm = vec![
        ("human_score".to_string(), "0.3".to_string()),
        ("human_relevance_score".to_string(), "high".to_string()),
        ("human_relevance".to_string(), "0.7".to_string()),
    ];
    let signal = relevance_signal(&fm, "a.md");
    assert_eq!(
        signal.explicit_values,
        vec!["high".to_string(), "0.7".to_string(), "0.3".to_string()]
    );
}

#[test]
fn title_comes_from_file_stem_when_frontmatter_has_none() {
    let note = parse_note("v", "Projects/my-first-note.md", "text", 0).expect("parse");
    assert_eq!(note.title, "my first note");
}

#[test]
fn tags_are_kept_once_in_order_of_first_use() {
    let note = parse_note("v", "t.md", "#b (#a), #b. #c/d #bad! #", 0).expect("parse");
    assert_eq!(note.tags, vec!["b".to_string(), "a".to_string(), "c/d".to_string()]);
}

#[test]
fn wikilinks_take_the_target_before_the_alias_bar() {
    let note = parse_note("v", "l.md", "see [[ A |x]] and [[B]] and [[unclosed", 0).expect("parse");
    assert_eq!(note.links.len(), 2);
    assert_eq!(note.links[0].target, "A");
    assert_eq!(note.links[0].raw, "[[ A |x]]");
    assert_eq!(note.links[1].target, "B");
}

// ---------------------------------------------------------------------------
// The vault walk
// ---------------------------------------------------------------------------

#[test]
fn scanner_ignores_hidden_runtime_directories() {
    assert_eq!(entry_action(".stversions", true), EntryAction::Skip);
    assert_eq!(entry_action("node_modules", true), EntryAction::Skip);
    assert_eq!(entry_action(".hidden.md", false), EntryAction::Skip);
    assert_eq!(entry_action("Notes", true), EntryAction::Descend);
    assert_eq!(entry_action("public.md", false), EntryAction::Collect);
    assert_eq!(entry_action("image.png", false), EntryAction::Skip);
    assert_eq!(entry_action("md", false), EntryAction::Skip);
}

#[test]
fn relative_note_paths_use_forward_slashes() {
    let segs = vec!["Notes".to_string(), "public.md".to_string()];
    assert_eq!(relative_note_path(&segs), "Notes/public.md");
    let segs = vec!["a\\b".to_string(), "c.md".to_string()];
    assert_eq!(relative_note_path(&segs), "a/b/c.md");
}

#[test]
fn notes_are_read_in_string_order_and_cut_to_the_limit() {
    let files = vec![
        "b.md".to_string(),
        "a/b.md".to_string(),
        "a.md".to_string(),
        "B.md".to_string(),
    ];
    assert_eq!(
        order_and_limit(files.clone(), None),
        vec!["B.md".to_string(), "a.md".to_string(), "a/b.md".to_string(), "b.md".to_string()]
    );
    assert_eq!(
        order_and_limit(files, Some(2)),
        vec!["B.md".to_string(), "a.md".to_string()]
    );
    assert!(path_le("a", "ab"));
    assert!(!path_le("ab", "a"));
    assert!(path_le("same", "same"));
    assert!(limit_reached(3, Some(3)));
    assert!(!limit_reached(3, None));
}

#[test]
fn sorting_matches_std_string_order() {
    let files = vec![
        "é.md".to_string(),
        "z.md".to_string(),
        "Z.md".to_string(),
        "a b.md".to_string(),
        "a/b.md".to_string(),
    ];
    let mut expected = files.clone();
    expected.sort();
    assert_eq!(order_and_limit(files, None), expected);
}

#[test]
fn scan_keeps_source_order_and_vault_id() {
    let sources = vec![
        NoteSource { relative_path: "a.md".to_string(), content: "# A\nx".to_string(), modified_unix: 1 },
        NoteSource { relative_path: "b.md".to_string(), content: "# B\ny".to_string(), modified_unix: 2 },
    ];
    let scan = scan_from_sources("/vault", &sources);
    assert_eq!(scan.vault_id, stable_id("vault", "/vault"));
    assert_eq!(scan.notes.len(), 2);
    assert_eq!(scan.notes[0].path, "a.md");
    assert_eq!(scan.notes[1].path, "b.md");
    assert_eq!(scan.notes[1].modified_unix, 2);
}

// ---------------------------------------------------------------------------
// Ids, paths and configuration
// ---------------------------------------------------------------------------

#[test]
fn stable_hash_is_fnv1a_in_sixteen_hex_digits() {
    assert_eq!(stable_hash(""), "cbf29ce484222325");
    assert_eq!(stable_hash("a"), "af63dc4c8601ec8c");
    assert_eq!(stable_id("vault", ""), "vault_cbf29ce484222325");
}

#[test]
fn containment_is_component_wise() {
    assert!(is_inside("/tmp/a/b", "/tmp/a"));
    assert!(is_inside("/tmp/a", "/tmp/a"));
    assert!(is_inside("/tmp/a/", "/tmp/a"));
    assert!(!is_inside("/tmp/ab", "/tmp/a"));
    assert!(!is_inside("/tmp", "/tmp/a"));
    assert!(is_inside("/tmp//a/./b", "/tmp/a"));
}

#[test]
fn database_paths_stay_in_the_state_dir_and_out_of_the_vault() {
    let config = RuntimeConfig::new("/tmp/example-vault", Some("/tmp/state".to_string()), None, None)
        .expect("valid config");
    for path in [
        config.database_path("demo"),
        config.duckdb_database_path("demo"),
        config.libsql_database_path("demo"),
    ] {
        assert!(is_inside(&path, "/tmp/state"));
        assert!(!is_inside(&path, "/tmp/example-vault"));
    }
    assert_eq!(config.duckdb_database_path("demo"), "/tmp/state/demo/vault-layer.duckdb");
    assert_eq!(config.libsql_database_path("demo"), "/tmp/state/demo/vault-layer.libsql");
}

#[test]
fn runtime_config_errors() {
    assert_eq!(
        RuntimeConfig::new("", Some("/s".to_string()), None, None).expect_err("empty"),
        "vault path cannot be empty"
    );
    assert_eq!(
        RuntimeConfig::new("/v", None, None, None).expect_err("no home"),
        "HOME is not set; pass --state-dir"
    );
    assert_eq!(
        RuntimeConfig::new("/v", Some("/v/state".to_string()), None, None).expect_err("inside"),
        "state directory must be outside the vault: /v/state is inside /v"
    );
}

#[test]
fn default_state_dir_prefers_the_environment_then_home() {
    assert_eq!(
        default_state_dir_from(Some("/custom".to_string()), Some("/home/u".to_string())),
        Ok("/custom".to_string())
    );
    assert_eq!(
        default_state_dir_from(Some(String::new()), Some("/home/u".to_string())),
        Ok("/home/u/.local/share/vault-layer".to_string())
    );
    let config = RuntimeConfig::new("/v", None, None, Some("/home/u".to_string())).expect("home");
    assert_eq!(config.state_dir, "/home/u/.local/share/vault-layer");
}

#[test]
fn backend_selection_from_settings() {
    let c = StorageBackendConfig::from_env_values(None, None, None);
    assert_eq!(c, StorageBackendConfig::local_sqlite());
    let c = StorageBackendConfig::from_env_values(Some(" DuckDB ".to_string()), None, None);
    assert_eq!(c.kind, StorageBackendKind::LocalDuckdb);
    let c = StorageBackendConfig::from_env_values(Some("turso-local".to_string()), Some("libsql://x".to_string()), None);
    assert_eq!(c.kind, StorageBackendKind::LocalLibsql);
    let c = StorageBackendConfig::from_env_values(None, Some("libsql://x".to_string()), Some("t".to_string()));
    assert_eq!(c.kind, StorageBackendKind::TursoRemote);
    assert_eq!(c.database_url, Some("libsql://x".to_string()));
    assert!(c.auth_token_present);
    let c = StorageBackendConfig::from_env_values(None, Some("   ".to_string()), Some("t".to_string()));
    assert_eq!(c.kind, StorageBackendKind::LocalSqlite);
    let c = StorageBackendConfig::from_env_values(Some("turso".to_string()), None, Some("t".to_string()));
    assert_eq!(c.kind, StorageBackendKind::TursoRemote);
    assert!(c.database_url.is_none());
    assert!(!c.auth_token_present);
}

// ---------------------------------------------------------------------------
// SQL and JSON
// ---------------------------------------------------------------------------

#[test]
fn sql_literals_double_quotes_and_blank_control_chars() {
    assert_eq!(sql_literal("it's"), "'it''s'");
    assert_eq!(sql_literal("a\0b\u{1a}c'd"), "'a b c''d'");
    assert_eq!(sql_literal(""), "''");
}

#[test]
fn json_strings_escape_quotes_and_control_chars() {
    assert_eq!(json_string("a\"b\\c\nd"), "\"a\\\"b\\\\c\\nd\"");
    assert_eq!(json_string("\u{1}"), "\"\\u0001\"");
    assert_eq!(json_string("tab\there"), "\"tab\\there\"");
}

#[test]
fn turso_url_errors_and_forms() {
    assert_eq!(
        turso_pipeline_url("  ").expect_err("empty"),
        "TURSO_DATABASE_URL cannot be empty"
    );
    assert_eq!(
        turso_pipeline_url("ftp://x").expect_err("scheme"),
        "TURSO_DATABASE_URL must start with libsql://, https://, or http://"
    );
    assert_eq!(
        turso_pipeline_url(" https://db.example/ ").expect("https"),
        "https://db.example/v2/pipeline"
    );
    assert_eq!(
        turso_pipeline_url("http://db/v2/pipeline").expect("kept"),
        "http://db/v2/pipeline"
    );
}

#[test]
fn turso_url_of_an_endpoint_is_the_endpoint() {
    for url in ["libsql://demo.turso.io/", "https://a/b", "http://x/v2/pipeline//"] {
        let once = turso_pipeline_url(url).expect("url");
        assert_eq!(turso_pipeline_url(&once).expect("again"), once);
    }
}

#[test]
fn pipeline_request_shape() {
    let body = turso_pipeline_request_json(&["SELECT 1".to_string()]);
    assert_eq!(
        body,
        "{\"requests\":[{\"type\":\"execute\",\"stmt\":{\"sql\":\"SELECT 1\"}}]}"
    );
    assert_eq!(turso_pipeline_request_json(&[]), "{\"requests\":[]}");
}

fn sample_scan() -> vault_layer::VaultScan {
    let sources = vec![NoteSource {
        relative_path: "note.md".to_string(),
        content: "# Hello\nSQLite shadow DB [[Target]] #db\n".to_string(),
        modified_unix: 5,
    }];
    scan_from_sources("/vault", &sources)
}

#[test]
fn writes_scan_rows_for_sqlite() {
    let scan = sample_scan();
    let scores = vec!["0.500".to_string()];
    let script = sqlite_write_script(&scan, "/vault", &scores);
    assert!(script.starts_with(vault_layer::SQLITE_SCHEMA));
    assert!(script.contains("\nBEGIN;\nDELETE FROM sections_fts;\nDELETE FROM vaults;\n"));
    assert!(script.contains("INSERT INTO links(source_note_id, target, raw) VALUES("));
    assert!(script.contains("'Target', '[[Target]]');\n"));
    assert!(script.contains("INSERT OR IGNORE INTO tags(note_id, tag) VALUES("));
    assert!(script.contains(", 'db');\n"));
    assert!(script.contains("0.500"));
    assert!(script.ends_with("COMMIT;\n"));
}

#[test]
fn local_script_and_remote_statements_carry_the_same_rows() {
    let scan = sample_scan();
    let scores = vec!["0.500".to_string()];
    let script = sqlite_write_script(&scan, "/vault", &scores);
    let remote = turso_sync_statements(&scan, "/vault", &scores);
    assert_eq!(remote.last().map(String::as_str), Some("COMMIT"));
    let rows: Vec<&String> = remote
        .iter()
        .filter(|s| s.starts_with("INSERT"))
        .collect();
    assert!(!rows.is_empty());
    for row in rows {
        assert!(script.contains(&format!("{row};\n")), "missing {row}");
    }
}

#[test]
fn duckdb_statements_clear_every_table_then_commit() {
    let scan = sample_scan();
    let scores = vec!["0.500".to_string()];
    let stmts = duckdb_sync_statements(&scan, "/vault", &scores);
    assert!(stmts.contains(&"BEGIN TRANSACTION".to_string()));
    assert!(stmts.contains(&"DELETE FROM embeddings".to_string()));
    assert_eq!(stmts.last().map(String::as_str), Some("COMMIT"));
    assert!(!stmts.iter().any(|s| s.contains("sections_fts")));
}

#[test]
fn stable_hash_reads_back_as_the_fnv1a_fold() {
    for input in ["", "a", "vault:Projects/x.md", "héllo"] {
        let h = stable_hash(input);
        let fold = input
            .bytes()
            .fold(0xcbf29ce484222325u64, |h, b| (h ^ b as u64).wrapping_mul(0x100000001b3));
        assert_eq!(h.len(), 16);
        assert!(h.chars().all(|c| matches!(c, '0'..='9' | 'a'..='f')));
        assert_eq!(u64::from_str_radix(&h, 16), Ok(fold));
    }
}

#[test]
fn statement_counts_follow_the_notes() {
    let scan = sample_scan();
    let scores = vec!["0.500".to_string()];
    let note = &scan.notes[0];
    let per_note = 1 + note.frontmatter.len() + note.tags.len() + note.links.len();
    let schema = vault_layer::statements::schema_statements().len();
    let remote = turso_sync_statements(&scan, "/vault", &scores);
    assert_eq!(remote.len(), schema + 6 + per_note + 3 * note.sections.len());
    assert_eq!(&remote[schema..schema + 3], &["BEGIN", "DELETE FROM sections_fts", "DELETE FROM vaults"]);
    assert!(remote[schema + 3].starts_with("INSERT INTO vaults("));
    assert!(remote[remote.len() - 2].starts_with("INSERT INTO index_runs("));
    assert!(remote.iter().all(|s| !s.ends_with(';')));
    let duck = duckdb_sync_statements(&scan, "/vault", &scores);
    let duck_schema = vault_layer::sql::schema_statements_from(vault_layer::DUCKDB_SCHEMA).len();
    assert_eq!(duck_schema, 12);
    assert_eq!(duck.len(), duck_schema + 12 + per_note + 2 * note.sections.len());
    assert_eq!(duck[duck_schema], "BEGIN TRANSACTION");
    assert!(duck.iter().all(|s| !s.starts_with("INSERT INTO sections_fts")));
}

fn file(name: &str) -> VaultEntry {
    VaultEntry { name: name.to_string(), is_dir: false, read_error: None, children: Vec::new() }
}

fn dir(name: &str, children: Vec<VaultEntry>) -> VaultEntry {
    VaultEntry { name: name.to_string(), is_dir: true, read_error: None, children }
}

fn sample_vault() -> VaultEntry {
    dir(
        "",
        vec![
            dir(".obsidian", vec![file("workspace.md")]),
            dir("a", vec![file("b.md"), file("c.txt")]),
            file("a.md"),
            dir("node_modules", vec![file("pkg.md")]),
            file("z.md"),
        ],
    )
}

#[test]
fn scan_reads_every_note_in_path_order() {
    assert_eq!(
        note_paths(&sample_vault(), None),
        Ok(vec!["a.md".to_string(), "a/b.md".to_string(), "z.md".to_string()])
    );
}

#[test]
fn scan_limit_keeps_the_first_notes_of_the_walk() {
    // The walk meets a/b.md before a.md; the two are then read in path order.
    assert_eq!(
        note_paths(&sample_vault(), Some(2)),
        Ok(vec!["a.md".to_string(), "a/b.md".to_string()])
    );
    assert_eq!(note_paths(&sample_vault(), Some(1)), Ok(vec!["a/b.md".to_string()]));
    assert_eq!(note_paths(&sample_vault(), Some(0)), Ok(Vec::new()));
    assert_eq!(note_paths(&sample_vault(), Some(9)).map(|p| p.len()), Ok(3));
}

#[test]
fn scan_fails_on_an_unreadable_directory_it_enters() {
    let mut broken = dir("b", Vec::new());
    broken.read_error = Some("read_dir b: denied".to_string());
    let vault = dir("", vec![file("a.md"), broken, file("c.md")]);
    assert_eq!(note_paths(&vault, None), Err("read_dir b: denied".to_string()));
    // Once the limit is reached the walk enters no further directory.
    let mut broken = dir("b", Vec::new());
    broken.read_error = Some("read_dir b: denied".to_string());
    let vault = dir("", vec![file("a.md"), broken]);
    assert_eq!(note_paths(&vault, Some(1)), Ok(vec!["a.md".to_string()]));
    let mut hidden = dir(".cache", Vec::new());
    hidden.read_error = Some("read_dir .cache: denied".to_string());
    let vault = dir("", vec![hidden, file("a.md")]);
    assert_eq!(note_paths(&vault, None), Ok(vec!["a.md".to_string()]));
}
