//! Verified core of VaultLayer: note parsing, stable ids, runtime paths,
//! storage backend selection, the vault walk's decisions, the command-line
//! surface, and SQL/JSON rendering for the shadow index.
pub mod text;
pub mod ids;
pub mod paths;
pub mod config;
pub mod note;
pub mod sql;
pub mod statements;
pub mod scan;
pub mod cli;
pub mod quality;

pub use cli::COMMANDS;
pub use config::{
    default_state_dir_from, RuntimeConfig, StorageBackendConfig, StorageBackendKind,
    DEFAULT_STATE_SUBDIR, LIBSQL_VECTOR_TARGET_SQL,
};
pub use ids::{stable_hash, stable_id};
pub use note::{parse_note, scan_from_sources, LinkRecord, NoteRecord, NoteSource, SectionRecord, VaultScan};
pub use paths::is_inside;
pub use sql::{json_string, sql_literal, turso_pipeline_request_json, turso_pipeline_url};
pub use statements::{
    duckdb_sync_statements, sqlite_write_script, turso_sync_statements, DUCKDB_SCHEMA, SQLITE_SCHEMA,
};
