//! Storage backend selection and runtime directory layout.
use vstd::prelude::*;

use crate::paths::has_root;
use crate::paths::is_inside;
use crate::paths::is_inside_spec;
use crate::paths::join_path;
use crate::paths::lemma_is_inside_transitive;
use crate::paths::lemma_join_is_inside;
use crate::paths::path_components;
use crate::paths::path_join;
use crate::text::copy_string;
use crate::text::push_str;
use crate::text::to_chars;
use crate::text::trim;
use crate::text::trim_str;

verus! {

/// Default runtime directory relative to the user's home directory.
pub const DEFAULT_STATE_SUBDIR: &'static str = ".local/share/vault-layer";

/// SQL fragment documenting the native libSQL/Turso vector target shape.
/// Local SQLite keeps JSON vectors so smoke tests never require remote credentials.
pub const LIBSQL_VECTOR_TARGET_SQL: &'static str = "embedding F32_BLOB(1536); CREATE INDEX chunk_embedding_idx ON embeddings (libsql_vector_idx(embedding, 'metric=cosine'));";

/// Supported storage backends. Local SQLite + FTS5 is the primary retrieval default.
/// DuckDB is an explicit analytics/export sidecar. Local libSQL is the local
/// open-source Turso-compatible engine and needs no URL/token.
/// Turso/libSQL remote is configured explicitly and never guessed from repo state.
#[derive(Debug, Clone, Copy, PartialEq, Eq, Structural)]
pub enum StorageBackendKind {
    LocalDuckdb,
    LocalSqlite,
    LocalLibsql,
    TursoRemote,
}

#[derive(Debug, Clone, PartialEq, Eq)]
pub struct StorageBackendConfig {
    pub kind: StorageBackendKind,
    pub database_url: Option<String>,
    pub auth_token_present: bool,
}

pub open spec fn opt_view(o: Option<String>) -> Option<Seq<char>> {
    match o {
        Some(s) => Some(s@),
        None => None,
    }
}

impl View for StorageBackendConfig {
    type V = (StorageBackendKind, Option<Seq<char>>, bool);

    open spec fn view(&self) -> Self::V {
        (self.kind, opt_view(self.database_url), self.auth_token_present)
    }
}

pub open spec fn ascii_lower(c: char) -> char {
    if 'A' <= c <= 'Z' {
        ((c as int) + 32) as char
    } else {
        c
    }
}

/// `str::to_ascii_lowercase`.
pub open spec fn to_ascii_lowercase(s: Seq<char>) -> Seq<char> {
    Seq::new(s.len(), |i: int| ascii_lower(s[i]))
}

/// A value that is not only white space.
pub open spec fn nonblank(s: Seq<char>) -> bool {
    trim(s).len() > 0
}

/// The backend selector as read: trimmed and ASCII-lowercased, empty when unset.
pub open spec fn backend_selector(backend: Option<Seq<char>>) -> Seq<char> {
    match backend {
        Some(v) => to_ascii_lowercase(trim(v)),
        None => seq![],
    }
}

pub open spec fn selects_duckdb(sel: Seq<char>) -> bool {
    sel == "duckdb"@ || sel == "duckdb-local"@
}

pub open spec fn selects_sqlite(sel: Seq<char>) -> bool {
    sel == "sqlite"@ || sel == "sqlite-local"@
}

pub open spec fn selects_libsql(sel: Seq<char>) -> bool {
    sel == "libsql"@ || sel == "libsql-local"@ || sel == "turso-local"@
}

pub open spec fn selects_turso(sel: Seq<char>) -> bool {
    sel == "turso"@ || sel == "turso-remote"@ || sel == "libsql-remote"@
}

/// The configured database URL, when it is set and not blank.
pub open spec fn usable_url(url: Option<Seq<char>>) -> Option<Seq<char>> {
    match url {
        Some(u) => if nonblank(u) {
            Some(u)
        } else {
            None
        },
        None => None,
    }
}

pub open spec fn token_present(token: Option<Seq<char>>) -> bool {
    match token {
        Some(t) => nonblank(t),
        None => false,
    }
}

pub open spec fn local_config(kind: StorageBackendKind) -> (
    StorageBackendKind,
    Option<Seq<char>>,
    bool,
) {
    (kind, None, false)
}

pub open spec fn remote_config(url: Option<Seq<char>>, token: Option<Seq<char>>) -> (
    StorageBackendKind,
    Option<Seq<char>>,
    bool,
) {
    match usable_url(url) {
        Some(u) => (StorageBackendKind::TursoRemote, Some(u), token_present(token)),
        None => (StorageBackendKind::TursoRemote, None, false),
    }
}

/// The backend chosen from `VAULT_LAYER_BACKEND`, `TURSO_DATABASE_URL` and
/// `TURSO_AUTH_TOKEN`.
pub open spec fn backend_from_settings(
    backend: Option<Seq<char>>,
    url: Option<Seq<char>>,
    token: Option<Seq<char>>,
) -> (StorageBackendKind, Option<Seq<char>>, bool) {
    let sel = backend_selector(backend);
    if selects_duckdb(sel) {
        local_config(StorageBackendKind::LocalDuckdb)
    } else if selects_sqlite(sel) {
        local_config(StorageBackendKind::LocalSqlite)
    } else if selects_libsql(sel) {
        local_config(StorageBackendKind::LocalLibsql)
    } else if selects_turso(sel) {
        remote_config(url, token)
    } else {
        match usable_url(url) {
            Some(_) => remote_config(url, token),
            None => local_config(StorageBackendKind::LocalSqlite),
        }
    }
}

pub open spec fn backend_name_spec(kind: StorageBackendKind) -> Seq<char> {
    match kind {
        StorageBackendKind::LocalDuckdb => "duckdb"@,
        StorageBackendKind::LocalSqlite => "sqlite"@,
        StorageBackendKind::LocalLibsql => "libsql-local"@,
        StorageBackendKind::TursoRemote => "turso-libsql"@,
    }
}

pub open spec fn index_write_mode_spec(kind: StorageBackendKind) -> Seq<char> {
    match kind {
        StorageBackendKind::LocalDuckdb => "implemented-analytics-sidecar"@,
        StorageBackendKind::LocalSqlite => "implemented-primary-local-retrieval"@,
        StorageBackendKind::LocalLibsql => "implemented-local-open-source-libsql"@,
        StorageBackendKind::TursoRemote => "implemented-explicit-remote-sync"@,
    }
}

pub open spec fn vector_mode_spec(kind: StorageBackendKind) -> Seq<char> {
    match kind {
        StorageBackendKind::LocalDuckdb => "duckdb-analytics-portable-json-cosine"@,
        StorageBackendKind::LocalSqlite => "sqlite-vec-target-json-cosine-fallback"@,
        StorageBackendKind::LocalLibsql => "portable-json-cosine-on-libsql"@,
        StorageBackendKind::TursoRemote => "native-libsql-vector-target"@,
    }
}

pub fn eq_chars_str(v: &[char], s: &str) -> (b: bool)
    ensures
        b == (v@ == s@),
{
    let w = to_chars(s);
    if v.len() != w.len() {
        return false;
    }
    let mut i: usize = 0;
    while i < v.len()
        invariant
            v@.len() == w@.len(),
            w@ == s@,
            i <= v@.len(),
            forall|k: int| 0 <= k < i ==> v@[k] == w@[k],
        decreases v@.len() - i,
    {
        if v[i] != w[i] {
            return false;
        }
        i = i + 1;
    }
    proof {
        assert(v@ =~= w@);
    }
    true
}

pub fn ascii_lowercase_chars(s: &str) -> (v: Vec<char>)
    ensures
        v@ == to_ascii_lowercase(s@),
{
    let w = to_chars(s);
    let mut v: Vec<char> = Vec::new();
    let mut i: usize = 0;
    while i < w.len()
        invariant
            i <= w@.len(),
            w@ == s@,
            v@ == to_ascii_lowercase(w@.subrange(0, i as int)),
        decreases w@.len() - i,
    {
        let c = w[i];
        let l = if 'A' <= c && c <= 'Z' {
            ((c as u8) + 32) as char
        } else {
            c
        };
        v.push(l);
        proof {
            assert(to_ascii_lowercase(w@.subrange(0, i + 1)) =~= to_ascii_lowercase(
                w@.subrange(0, i as int),
            ).push(ascii_lower(c)));
        }
        i = i + 1;
    }
    proof {
        assert(w@.subrange(0, w@.len() as int) =~= w@);
    }
    v
}

fn is_nonblank(s: &str) -> (b: bool)
    ensures
        b == nonblank(s@),
{
    let t = trim_str(s);
    t.as_str().is_empty() == false
}

fn usable_url_exec(url: Option<String>) -> (r: Option<String>)
    ensures
        opt_view(r) == usable_url(opt_view(url)),
{
    match url {
        Some(u) => {
            if is_nonblank(u.as_str()) {
                Some(u)
            } else {
                None
            }
        },
        None => None,
    }
}

fn token_present_exec(token: &Option<String>) -> (b: bool)
    ensures
        b == token_present(opt_view(*token)),
{
    match token {
        Some(t) => is_nonblank(t.as_str()),
        None => false,
    }
}

impl StorageBackendConfig {
    pub fn local_duckdb() -> (c: Self)
        ensures
            c@ == local_config(StorageBackendKind::LocalDuckdb),
    {
        Self { kind: StorageBackendKind::LocalDuckdb, database_url: None, auth_token_present: false }
    }

    pub fn local_sqlite() -> (c: Self)
        ensures
            c@ == local_config(StorageBackendKind::LocalSqlite),
    {
        Self { kind: StorageBackendKind::LocalSqlite, database_url: None, auth_token_present: false }
    }

    pub fn local_libsql() -> (c: Self)
        ensures
            c@ == local_config(StorageBackendKind::LocalLibsql),
    {
        Self { kind: StorageBackendKind::LocalLibsql, database_url: None, auth_token_present: false }
    }

    fn remote(url: Option<String>, token: Option<String>) -> (c: Self)
        ensures
            c@ == remote_config(opt_view(url), opt_view(token)),
    {
        let present = token_present_exec(&token);
        match usable_url_exec(url) {
            Some(u) => Self {
                kind: StorageBackendKind::TursoRemote,
                database_url: Some(u),
                auth_token_present: present,
            },
            None => Self {
                kind: StorageBackendKind::TursoRemote,
                database_url: None,
                auth_token_present: false,
            },
        }
    }

    /// The backend chosen from the values of the `VAULT_LAYER_BACKEND`,
    /// `TURSO_DATABASE_URL` and `TURSO_AUTH_TOKEN` environment variables
    /// (`None` where a variable is unset).
    pub fn from_env_values(
        backend: Option<String>,
        database_url: Option<String>,
        auth_token: Option<String>,
    ) -> (c: Self)
        ensures
            c@ == backend_from_settings(
                opt_view(backend),
                opt_view(database_url),
                opt_view(auth_token),
            ),
    {
        let sel: Vec<char> = match &backend {
            Some(v) => {
                let t = trim_str(v.as_str());
                ascii_lowercase_chars(t.as_str())
            },
            None => Vec::new(),
        };
        proof {
            if backend is None {
                assert(sel@ =~= backend_selector(opt_view(backend)));
            }
        }
        if eq_chars_str(&sel, "duckdb") || eq_chars_str(&sel, "duckdb-local") {
            Self::local_duckdb()
        } else if eq_chars_str(&sel, "sqlite") || eq_chars_str(&sel, "sqlite-local") {
            Self::local_sqlite()
        } else if eq_chars_str(&sel, "libsql") || eq_chars_str(&sel, "libsql-local")
            || eq_chars_str(&sel, "turso-local") {
            Self::local_libsql()
        } else if eq_chars_str(&sel, "turso") || eq_chars_str(&sel, "turso-remote")
            || eq_chars_str(&sel, "libsql-remote") {
            Self::remote(database_url, auth_token)
        } else {
            let has_url = match &database_url {
                Some(u) => is_nonblank(u.as_str()),
                None => false,
            };
            if has_url {
                Self::remote(database_url, auth_token)
            } else {
                Self::local_sqlite()
            }
        }
    }

    pub fn backend_name(&self) -> (r: &'static str)
        ensures
            r@ == backend_name_spec(self.kind),
    {
        match self.kind {
            StorageBackendKind::LocalDuckdb => "duckdb",
            StorageBackendKind::LocalSqlite => "sqlite",
            StorageBackendKind::LocalLibsql => "libsql-local",
            StorageBackendKind::TursoRemote => "turso-libsql",
        }
    }

    pub fn index_write_mode(&self) -> (r: &'static str)
        ensures
            r@ == index_write_mode_spec(self.kind),
    {
        match self.kind {
            StorageBackendKind::LocalDuckdb => "implemented-analytics-sidecar",
            StorageBackendKind::LocalSqlite => "implemented-primary-local-retrieval",
            StorageBackendKind::LocalLibsql => "implemented-local-open-source-libsql",
            StorageBackendKind::TursoRemote => "implemented-explicit-remote-sync",
        }
    }

    pub fn vector_mode(&self) -> (r: &'static str)
        ensures
            r@ == vector_mode_spec(self.kind),
    {
        match self.kind {
            StorageBackendKind::LocalDuckdb => "duckdb-analytics-portable-json-cosine",
            StorageBackendKind::LocalSqlite => "sqlite-vec-target-json-cosine-fallback",
            StorageBackendKind::LocalLibsql => "portable-json-cosine-on-libsql",
            StorageBackendKind::TursoRemote => "native-libsql-vector-target",
        }
    }
}

/// Remote sync is never guessed: the remote backend is chosen only when the
/// selector names it or a non-blank database URL is configured, and a token
/// counts as present only together with a usable URL.
pub proof fn lemma_remote_backend_is_explicit(
    backend: Option<Seq<char>>,
    url: Option<Seq<char>>,
    token: Option<Seq<char>>,
)
    ensures
        ({
            let c = backend_from_settings(backend, url, token);
            &&& c.0 == StorageBackendKind::TursoRemote ==> selects_turso(backend_selector(backend))
                || usable_url(url) is Some
            &&& c.2 ==> c.1 is Some && token_present(token)
            &&& c.1 is Some ==> c.0 == StorageBackendKind::TursoRemote
            &&& c.0 != StorageBackendKind::TursoRemote ==> c.1 is None && !c.2
        }),
{
}

// ---------------------------------------------------------------------------
// Runtime directories
// ---------------------------------------------------------------------------

#[derive(Debug, Clone, PartialEq, Eq)]
pub struct RuntimeConfig {
    pub vault_path: String,
    pub state_dir: String,
}

impl View for RuntimeConfig {
    type V = (Seq<char>, Seq<char>);

    open spec fn view(&self) -> Self::V {
        (self.vault_path@, self.state_dir@)
    }
}

/// The default state directory from `VAULT_LAYER_STATE_DIR` and `HOME`.
pub open spec fn default_state_dir_spec(state_env: Option<Seq<char>>, home: Option<Seq<char>>) -> Result<
    Seq<char>,
    Seq<char>,
> {
    match state_env {
        Some(v) if v.len() > 0 => Ok(v),
        _ => match home {
            Some(h) => Ok(path_join(h, DEFAULT_STATE_SUBDIR@)),
            None => Err("HOME is not set; pass --state-dir"@),
        },
    }
}

pub open spec fn outside_error(state: Seq<char>, vault: Seq<char>) -> Seq<char> {
    "state directory must be outside the vault: "@ + state + " is inside "@ + vault
}

/// What `RuntimeConfig::new` gives: the vault and state directory, or the
/// reason the pair is refused.
pub open spec fn runtime_config_spec(
    vault: Seq<char>,
    state_dir: Option<Seq<char>>,
    state_env: Option<Seq<char>>,
    home: Option<Seq<char>>,
) -> Result<(Seq<char>, Seq<char>), Seq<char>> {
    if vault.len() == 0 {
        Err("vault path cannot be empty"@)
    } else {
        let state = match state_dir {
            Some(p) => Ok(p),
            None => default_state_dir_spec(state_env, home),
        };
        match state {
            Err(e) => Err(e),
            Ok(s) => if is_inside_spec(s, vault) {
                Err(outside_error(s, vault))
            } else {
                Ok((vault, s))
            },
        }
    }
}

pub open spec fn result_view(r: Result<RuntimeConfig, String>) -> Result<
    (Seq<char>, Seq<char>),
    Seq<char>,
> {
    match r {
        Ok(c) => Ok(c@),
        Err(e) => Err(e@),
    }
}

/// The default runtime state directory: `VAULT_LAYER_STATE_DIR` when set and
/// not empty, otherwise `$HOME/.local/share/vault-layer`.
pub fn default_state_dir_from(state_env: Option<String>, home: Option<String>) -> (r: Result<
    String,
    String,
>)
    ensures
        match r {
            Ok(s) => default_state_dir_spec(opt_view(state_env), opt_view(home)) == Ok::<
                Seq<char>,
                Seq<char>,
            >(s@),
            Err(e) => default_state_dir_spec(opt_view(state_env), opt_view(home)) == Err::<
                Seq<char>,
                Seq<char>,
            >(e@),
        },
{
    match state_env {
        Some(v) if !v.as_str().is_empty() => Ok(v),
        _ => match home {
            Some(h) => Ok(join_path(h.as_str(), DEFAULT_STATE_SUBDIR)),
            None => Err(copy_string("HOME is not set; pass --state-dir")),
        },
    }
}

impl RuntimeConfig {
    /// A runtime configuration for `vault_path`. The state directory is
    /// `state_dir` when given, else the default one derived from the values of
    /// `VAULT_LAYER_STATE_DIR` and `HOME`; it must lie outside the vault.
    pub fn new(
        vault_path: &str,
        state_dir: Option<String>,
        state_env: Option<String>,
        home: Option<String>,
    ) -> (r: Result<Self, String>)
        ensures
            result_view(r) == runtime_config_spec(
                vault_path@,
                opt_view(state_dir),
                opt_view(state_env),
                opt_view(home),
            ),
            r matches Ok(c) ==> c.vault_path@.len() > 0 && !is_inside_spec(
                c.state_dir@,
                c.vault_path@,
            ),
    {
        if vault_path.is_empty() {
            return Err(copy_string("vault path cannot be empty"));
        }
        let state = match state_dir {
            Some(p) => p,
            None => match default_state_dir_from(state_env, home) {
                Ok(s) => s,
                Err(e) => {
                    return Err(e);
                },
            },
        };
        if is_inside(state.as_str(), vault_path) {
            let mut msg = copy_string("state directory must be outside the vault: ");
            push_str(&mut msg, state.as_str());
            push_str(&mut msg, " is inside ");
            push_str(&mut msg, vault_path);
            proof {
                assert(msg@ =~= outside_error(state@, vault_path@));
            }
            return Err(msg);
        }
        Ok(Self { vault_path: copy_string(vault_path), state_dir: state })
    }

    pub fn database_path(&self, vault_id: &str) -> (r: String)
        ensures
            r@ == path_join(path_join(self.state_dir@, vault_id@), "vault-layer.db"@),
    {
        let dir = join_path(self.state_dir.as_str(), vault_id);
        join_path(dir.as_str(), "vault-layer.db")
    }

    pub fn duckdb_database_path(&self, vault_id: &str) -> (r: String)
        ensures
            r@ == path_join(path_join(self.state_dir@, vault_id@), "vault-layer.duckdb"@),
    {
        let dir = join_path(self.state_dir.as_str(), vault_id);
        join_path(dir.as_str(), "vault-layer.duckdb")
    }

    pub fn libsql_database_path(&self, vault_id: &str) -> (r: String)
        ensures
            r@ == path_join(path_join(self.state_dir@, vault_id@), "vault-layer.libsql"@),
    {
        let dir = join_path(self.state_dir.as_str(), vault_id);
        join_path(dir.as_str(), "vault-layer.libsql")
    }
}

/// A file placed under `state/vault_id` lies inside the state directory,
/// whatever the state directory is, as long as the vault id and the file name
/// are relative.
pub proof fn lemma_state_file_inside_state_dir(state: Seq<char>, vault_id: Seq<char>, file: Seq<char>)
    requires
        !has_root(vault_id),
        !has_root(file),
    ensures
        is_inside_spec(path_join(path_join(state, vault_id), file), state),
{
    let dir = path_join(state, vault_id);
    let db = path_join(dir, file);
    if state.len() == 0 {
        assert(path_components(state) =~= Seq::<Seq<char>>::empty());
        assert(path_components(db).subrange(0, 0) =~= Seq::<Seq<char>>::empty());
    } else {
        lemma_join_is_inside(state, vault_id);
        lemma_join_is_inside(dir, file);
        lemma_is_inside_transitive(db, dir, state);
    }
}

/// The database files of every backend lie inside the state directory for
/// every relative vault id.
pub proof fn lemma_database_paths_inside_state_dir(state: Seq<char>, vault_id: Seq<char>)
    requires
        !has_root(vault_id),
    ensures
        is_inside_spec(path_join(path_join(state, vault_id), "vault-layer.db"@), state),
        is_inside_spec(path_join(path_join(state, vault_id), "vault-layer.duckdb"@), state),
        is_inside_spec(path_join(path_join(state, vault_id), "vault-layer.libsql"@), state),
{
    reveal_strlit("vault-layer.db");
    reveal_strlit("vault-layer.duckdb");
    reveal_strlit("vault-layer.libsql");
    lemma_state_file_inside_state_dir(state, vault_id, "vault-layer.db"@);
    lemma_state_file_inside_state_dir(state, vault_id, "vault-layer.duckdb"@);
    lemma_state_file_inside_state_dir(state, vault_id, "vault-layer.libsql"@);
}

/// Two paths whose components both begin a third path's components: one of
/// them lies inside the other.
proof fn lemma_common_prefix_comparable(a: Seq<char>, b: Seq<char>, c: Seq<char>)
    requires
        is_inside_spec(c, a),
        is_inside_spec(c, b),
    ensures
        is_inside_spec(a, b) || is_inside_spec(b, a),
{
    let ca = path_components(a);
    let cb = path_components(b);
    let cc = path_components(c);
    if ca.len() <= cb.len() {
        assert(cb.subrange(0, ca.len() as int) =~= cc.subrange(0, ca.len() as int));
    } else {
        assert(ca.subrange(0, cb.len() as int) =~= cc.subrange(0, cb.len() as int));
    }
}

/// The index databases stay out of the vault: with a state directory outside
/// the vault (which `RuntimeConfig::new` guarantees) and a vault that does not
/// itself lie under the state directory, no database path of any backend
/// lies inside the vault.
pub proof fn lemma_database_paths_outside_vault(vault: Seq<char>, state: Seq<char>, vault_id: Seq<char>)
    requires
        !is_inside_spec(state, vault),
        !is_inside_spec(vault, state),
        !has_root(vault_id),
    ensures
        !is_inside_spec(path_join(path_join(state, vault_id), "vault-layer.db"@), vault),
        !is_inside_spec(path_join(path_join(state, vault_id), "vault-layer.duckdb"@), vault),
        !is_inside_spec(path_join(path_join(state, vault_id), "vault-layer.libsql"@), vault),
{
    lemma_database_paths_inside_state_dir(state, vault_id);
    let files = seq!["vault-layer.db"@, "vault-layer.duckdb"@, "vault-layer.libsql"@];
    assert forall|k: int| 0 <= k < 3 implies !is_inside_spec(
        path_join(path_join(state, vault_id), #[trigger] files[k]),
        vault,
    ) by {
        let db = path_join(path_join(state, vault_id), files[k]);
        if is_inside_spec(db, vault) {
            lemma_common_prefix_comparable(vault, state, db);
        }
    }
    assert(files[0] == "vault-layer.db"@);
    assert(files[1] == "vault-layer.duckdb"@);
    assert(files[2] == "vault-layer.libsql"@);
}

} // verus!
