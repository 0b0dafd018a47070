//! The SQL statements that project a vault scan into a database: DuckDB,
//! local and remote libSQL/Turso, and the `sqlite3` script.
use vstd::prelude::*;

use crate::ids::decimal;
use crate::ids::decimal_string;
use crate::ids::stable_id;
use crate::ids::stable_id_spec;
use crate::note::link_views;
use crate::note::pair_views;
use crate::note::section_views;
use crate::note::NoteRecord;
use crate::note::SectionRecord;
use crate::note::VaultScan;
use crate::sql::join_with;
use crate::sql::schema_statements_from;
use crate::sql::schema_statements_spec;
use crate::sql::sql_literal;
use crate::sql::sql_literal_spec;
use crate::note::string_views;
use crate::text::copy_string;
use crate::text::push_char;
use crate::text::push_str;
use crate::text::starts_with;

verus! {

/// SQL schema used for local SQLite/libSQL-compatible shadow databases.
pub const SQLITE_SCHEMA: &'static str = r#"PRAGMA foreign_keys = ON;
CREATE TABLE IF NOT EXISTS vaults (
  id TEXT PRIMARY KEY,
  root_path TEXT NOT NULL,
  indexed_at_unix INTEGER NOT NULL
);
CREATE TABLE IF NOT EXISTS notes (
  id TEXT PRIMARY KEY,
  vault_id TEXT NOT NULL REFERENCES vaults(id) ON DELETE CASCADE,
  path TEXT NOT NULL,
  title TEXT NOT NULL,
  modified_unix INTEGER NOT NULL,
  content_hash TEXT NOT NULL,
  human_relevance_score REAL NOT NULL DEFAULT 0.5
);
CREATE TABLE IF NOT EXISTS sections (
  id TEXT PRIMARY KEY,
  note_id TEXT NOT NULL REFERENCES notes(id) ON DELETE CASCADE,
  heading_path TEXT NOT NULL,
  level INTEGER NOT NULL,
  text TEXT NOT NULL,
  content_hash TEXT NOT NULL,
  human_relevance_score REAL NOT NULL DEFAULT 0.5
);
CREATE TABLE IF NOT EXISTS frontmatter (
  note_id TEXT NOT NULL REFERENCES notes(id) ON DELETE CASCADE,
  key TEXT NOT NULL,
  value TEXT NOT NULL
);
CREATE TABLE IF NOT EXISTS tags (
  note_id TEXT NOT NULL REFERENCES notes(id) ON DELETE CASCADE,
  tag TEXT NOT NULL,
  PRIMARY KEY (note_id, tag)
);
CREATE TABLE IF NOT EXISTS links (
  source_note_id TEXT NOT NULL REFERENCES notes(id) ON DELETE CASCADE,
  target TEXT NOT NULL,
  raw TEXT NOT NULL
);
CREATE TABLE IF NOT EXISTS provenance (
  chunk_id TEXT PRIMARY KEY REFERENCES sections(id) ON DELETE CASCADE,
  note_path TEXT NOT NULL,
  heading_path TEXT NOT NULL,
  content_hash TEXT NOT NULL,
  modified_unix INTEGER NOT NULL,
  human_relevance_score REAL NOT NULL DEFAULT 0.5
);
CREATE TABLE IF NOT EXISTS embeddings (
  chunk_id TEXT NOT NULL REFERENCES sections(id) ON DELETE CASCADE,
  model TEXT NOT NULL,
  dimensions INTEGER NOT NULL,
  embedding_json TEXT NOT NULL,
  embedded_at_unix INTEGER NOT NULL,
  PRIMARY KEY (chunk_id, model)
);
CREATE TABLE IF NOT EXISTS index_runs (
  id TEXT PRIMARY KEY,
  vault_id TEXT NOT NULL,
  started_at_unix INTEGER NOT NULL,
  notes_indexed INTEGER NOT NULL
);
CREATE VIRTUAL TABLE IF NOT EXISTS sections_fts USING fts5(
  id UNINDEXED,
  note_id UNINDEXED,
  path,
  heading_path,
  text
);
CREATE INDEX IF NOT EXISTS idx_notes_path ON notes(path);
CREATE INDEX IF NOT EXISTS idx_sections_note_id ON sections(note_id);
CREATE INDEX IF NOT EXISTS idx_sections_relevance ON sections(human_relevance_score);
CREATE INDEX IF NOT EXISTS idx_links_target ON links(target);
"#;

/// Schema of the DuckDB analytics sidecar.
pub const DUCKDB_SCHEMA: &'static str = r#"
CREATE TABLE IF NOT EXISTS vaults (
  id TEXT PRIMARY KEY,
  root_path TEXT NOT NULL,
  indexed_at_unix BIGINT NOT NULL
);
CREATE TABLE IF NOT EXISTS notes (
  id TEXT PRIMARY KEY,
  vault_id TEXT NOT NULL,
  path TEXT NOT NULL,
  title TEXT NOT NULL,
  modified_unix BIGINT NOT NULL,
  content_hash TEXT NOT NULL,
  human_relevance_score DOUBLE NOT NULL
);
CREATE TABLE IF NOT EXISTS sections (
  id TEXT PRIMARY KEY,
  note_id TEXT NOT NULL,
  heading_path TEXT NOT NULL,
  level INTEGER NOT NULL,
  text TEXT NOT NULL,
  content_hash TEXT NOT NULL,
  human_relevance_score DOUBLE NOT NULL
);
CREATE TABLE IF NOT EXISTS frontmatter (note_id TEXT NOT NULL, key TEXT NOT NULL, value TEXT NOT NULL);
CREATE TABLE IF NOT EXISTS tags (note_id TEXT NOT NULL, tag TEXT NOT NULL);
CREATE TABLE IF NOT EXISTS links (source_note_id TEXT NOT NULL, target TEXT NOT NULL, raw TEXT NOT NULL);
CREATE TABLE IF NOT EXISTS provenance (
  chunk_id TEXT PRIMARY KEY,
  note_path TEXT NOT NULL,
  heading_path TEXT NOT NULL,
  content_hash TEXT NOT NULL,
  modified_unix BIGINT NOT NULL,
  human_relevance_score DOUBLE NOT NULL
);
CREATE TABLE IF NOT EXISTS embeddings (chunk_id TEXT PRIMARY KEY, model TEXT NOT NULL, dimensions INTEGER NOT NULL, vector_json TEXT NOT NULL);
CREATE TABLE IF NOT EXISTS index_runs (id TEXT PRIMARY KEY, vault_id TEXT NOT NULL, started_at_unix BIGINT NOT NULL, notes_indexed BIGINT NOT NULL);
CREATE INDEX IF NOT EXISTS idx_notes_path ON notes(path);
CREATE INDEX IF NOT EXISTS idx_sections_note_id ON sections(note_id);
CREATE INDEX IF NOT EXISTS idx_sections_relevance ON sections(human_relevance_score);
"#;

// ---------------------------------------------------------------------------
// Row statements
// ---------------------------------------------------------------------------

pub open spec fn q(s: Seq<char>) -> Seq<char> {
    sql_literal_spec(s)
}

/// `head` followed by the values separated by `, ` and a closing `)`.
pub open spec fn values_stmt(head: Seq<char>, parts: Seq<Seq<char>>) -> Seq<char> {
    head + join_with(parts, ", "@) + ")"@
}

pub open spec fn note_stmt(n: NoteRecord, vault_id: Seq<char>, score: Seq<char>) -> Seq<char> {
    values_stmt(
        "INSERT INTO notes(id, vault_id, path, title, modified_unix, content_hash, human_relevance_score) VALUES("@,
        seq![
            q(n.id@),
            q(vault_id),
            q(n.path@),
            q(n.title@),
            decimal(n.modified_unix as nat),
            q(n.content_hash@),
            score,
        ],
    )
}

pub open spec fn frontmatter_stmt(note_id: Seq<char>, pair: (Seq<char>, Seq<char>)) -> Seq<char> {
    values_stmt(
        "INSERT INTO frontmatter(note_id, key, value) VALUES("@,
        seq![q(note_id), q(pair.0), q(pair.1)],
    )
}

pub open spec fn tag_head(or_ignore: bool) -> Seq<char> {
    if or_ignore {
        "INSERT OR IGNORE INTO tags(note_id, tag) VALUES("@
    } else {
        "INSERT INTO tags(note_id, tag) VALUES("@
    }
}

pub open spec fn tag_stmt(note_id: Seq<char>, tag: Seq<char>, or_ignore: bool) -> Seq<char> {
    values_stmt(tag_head(or_ignore), seq![q(note_id), q(tag)])
}

pub open spec fn link_stmt(note_id: Seq<char>, link: (Seq<char>, Seq<char>, Seq<char>)) -> Seq<char> {
    values_stmt(
        "INSERT INTO links(source_note_id, target, raw) VALUES("@,
        seq![q(note_id), q(link.1), q(link.2)],
    )
}

pub open spec fn section_stmt(
    n: NoteRecord,
    s: (Seq<char>, Seq<char>, Seq<char>, u8, Seq<char>, Seq<char>),
    score: Seq<char>,
) -> Seq<char> {
    values_stmt(
        "INSERT INTO sections(id, note_id, heading_path, level, text, content_hash, human_relevance_score) VALUES("@,
        seq![q(s.0), q(n.id@), q(s.2), decimal(s.3 as nat), q(s.4), q(s.5), score],
    )
}

pub open spec fn fts_stmt(n: NoteRecord, s: (Seq<char>, Seq<char>, Seq<char>, u8, Seq<char>, Seq<char>)) -> Seq<
    char,
> {
    values_stmt(
        "INSERT INTO sections_fts(id, note_id, path, heading_path, text) VALUES("@,
        seq![q(s.0), q(n.id@), q(n.path@), q(s.2), q(s.4)],
    )
}

pub open spec fn provenance_stmt(
    n: NoteRecord,
    s: (Seq<char>, Seq<char>, Seq<char>, u8, Seq<char>, Seq<char>),
    score: Seq<char>,
) -> Seq<char> {
    values_stmt(
        "INSERT INTO provenance(chunk_id, note_path, heading_path, content_hash, modified_unix, human_relevance_score) VALUES("@,
        seq![q(s.0), q(n.path@), q(s.2), q(s.5), decimal(n.modified_unix as nat), score],
    )
}

/// The statements of one section: its row, its full-text row when asked
/// for, and its provenance row.
pub open spec fn section_group(
    n: NoteRecord,
    s: (Seq<char>, Seq<char>, Seq<char>, u8, Seq<char>, Seq<char>),
    score: Seq<char>,
    fts: bool,
) -> Seq<Seq<char>> {
    if fts {
        seq![section_stmt(n, s, score), fts_stmt(n, s), provenance_stmt(n, s, score)]
    } else {
        seq![section_stmt(n, s, score), provenance_stmt(n, s, score)]
    }
}

/// The groups, one after another.
pub open spec fn concat_all(gs: Seq<Seq<Seq<char>>>) -> Seq<Seq<char>>
    decreases gs.len(),
{
    if gs.len() == 0 {
        seq![]
    } else {
        concat_all(gs.drop_last()) + gs.last()
    }
}

/// The statements of one note: its row, then its frontmatter, tags, links and
/// sections, each in order.
pub open spec fn note_rows(
    n: NoteRecord,
    vault_id: Seq<char>,
    score: Seq<char>,
    fts: bool,
    or_ignore: bool,
) -> Seq<Seq<char>> {
    let fm = pair_views(n.frontmatter@);
    let tags = string_views(n.tags@);
    let links = link_views(n.links@);
    let secs = section_views(n.sections@);
    seq![note_stmt(n, vault_id, score)] + Seq::new(
        fm.len(),
        |i: int| frontmatter_stmt(n.id@, fm[i]),
    ) + Seq::new(tags.len(), |i: int| tag_stmt(n.id@, tags[i], or_ignore)) + Seq::new(
        links.len(),
        |i: int| link_stmt(n.id@, links[i]),
    ) + concat_all(Seq::new(secs.len(), |i: int| section_group(n, secs[i], score, fts)))
}

/// The statements of every note of a scan, in order; `scores` holds the
/// human relevance score of each note as SQL text.
pub open spec fn scan_rows(scan: VaultScan, scores: Seq<Seq<char>>, fts: bool, or_ignore: bool) -> Seq<
    Seq<char>,
> {
    concat_all(
        Seq::new(
            scan.notes@.len(),
            |i: int| note_rows(scan.notes@[i], scan.vault_id@, scores[i], fts, or_ignore),
        ),
    )
}

/// Builds `head` followed by `parts` separated by `, ` and a closing `)`.
fn render_values(head: &str, parts: &Vec<String>) -> (r: String)
    ensures
        r@ == values_stmt(head@, string_views(parts@)),
{
    let mut out = copy_string(head);
    let mut i: usize = 0;
    proof {
        assert(string_views(parts@).subrange(0, 0) =~= Seq::<Seq<char>>::empty());
        assert(out@ =~= head@ + join_with(string_views(parts@).subrange(0, 0), ", "@));
    }
    while i < parts.len()
        invariant
            i <= parts@.len(),
            out@ == head@ + join_with(string_views(parts@).subrange(0, i as int), ", "@),
        decreases parts@.len() - i,
    {
        if i > 0 {
            push_str(&mut out, ", ");
        }
        push_str(&mut out, parts[i].as_str());
        proof {
            let sub = string_views(parts@).subrange(0, i + 1);
            assert(sub.drop_last() =~= string_views(parts@).subrange(0, i as int));
            assert(sub.last() == parts@[i as int]@);
            assert(out@ =~= head@ + join_with(sub, ", "@));
        }
        i = i + 1;
    }
    push_str(&mut out, ")");
    proof {
        assert(string_views(parts@).subrange(0, parts@.len() as int) =~= string_views(parts@));
    }
    out
}

fn push_stmt(out: &mut Vec<String>, s: String)
    ensures
        string_views(final(out)@) == string_views(old(out)@).push(s@),
{
    out.push(s);
    proof {
        assert(string_views(final(out)@) =~= string_views(old(out)@).push(s@));
    }
}

fn section_group_exec(
    out: &mut Vec<String>,
    n: &NoteRecord,
    s: &SectionRecord,
    score: &str,
    fts: bool,
)
    ensures
        string_views(final(out)@) == string_views(old(out)@) + section_group(*n, s@, score@, fts),
{
    let mut parts: Vec<String> = Vec::new();
    parts.push(sql_literal(s.id.as_str()));
    parts.push(sql_literal(n.id.as_str()));
    parts.push(sql_literal(s.heading_path.as_str()));
    parts.push(decimal_string(s.level as u64));
    parts.push(sql_literal(s.text.as_str()));
    parts.push(sql_literal(s.content_hash.as_str()));
    parts.push(copy_string(score));
    proof {
        assert(string_views(parts@) =~= seq![
            q(s.id@),
            q(n.id@),
            q(s.heading_path@),
            decimal(s.level as nat),
            q(s.text@),
            q(s.content_hash@),
            score@,
        ]);
    }
    push_stmt(
        out,
        render_values(
            "INSERT INTO sections(id, note_id, heading_path, level, text, content_hash, human_relevance_score) VALUES(",
            &parts,
        ),
    );
    if fts {
        let mut fparts: Vec<String> = Vec::new();
        fparts.push(sql_literal(s.id.as_str()));
        fparts.push(sql_literal(n.id.as_str()));
        fparts.push(sql_literal(n.path.as_str()));
        fparts.push(sql_literal(s.heading_path.as_str()));
        fparts.push(sql_literal(s.text.as_str()));
        proof {
            assert(string_views(fparts@) =~= seq![
                q(s.id@),
                q(n.id@),
                q(n.path@),
                q(s.heading_path@),
                q(s.text@),
            ]);
        }
        push_stmt(
            out,
            render_values(
                "INSERT INTO sections_fts(id, note_id, path, heading_path, text) VALUES(",
                &fparts,
            ),
        );
    }
    let mut pparts: Vec<String> = Vec::new();
    pparts.push(sql_literal(s.id.as_str()));
    pparts.push(sql_literal(n.path.as_str()));
    pparts.push(sql_literal(s.heading_path.as_str()));
    pparts.push(sql_literal(s.content_hash.as_str()));
    pparts.push(decimal_string(n.modified_unix));
    pparts.push(copy_string(score));
    proof {
        assert(string_views(pparts@) =~= seq![
            q(s.id@),
            q(n.path@),
            q(s.heading_path@),
            q(s.content_hash@),
            decimal(n.modified_unix as nat),
            score@,
        ]);
    }
    push_stmt(
        out,
        render_values(
            "INSERT INTO provenance(chunk_id, note_path, heading_path, content_hash, modified_unix, human_relevance_score) VALUES(",
            &pparts,
        ),
    );
    proof {
        assert(string_views(final(out)@) =~= string_views(old(out)@) + section_group(
            *n,
            s@,
            score@,
            fts,
        ));
    }
}

fn note_rows_exec(
    out: &mut Vec<String>,
    n: &NoteRecord,
    vault_id: &str,
    score: &str,
    fts: bool,
    or_ignore: bool,
)
    ensures
        string_views(final(out)@) == string_views(old(out)@) + note_rows(
            *n,
            vault_id@,
            score@,
            fts,
            or_ignore,
        ),
{
    let ghost base = string_views(out@);
    let mut parts: Vec<String> = Vec::new();
    parts.push(sql_literal(n.id.as_str()));
    parts.push(sql_literal(vault_id));
    parts.push(sql_literal(n.path.as_str()));
    parts.push(sql_literal(n.title.as_str()));
    parts.push(decimal_string(n.modified_unix));
    parts.push(sql_literal(n.content_hash.as_str()));
    parts.push(copy_string(score));
    proof {
        assert(string_views(parts@) =~= seq![
            q(n.id@),
            q(vault_id@),
            q(n.path@),
            q(n.title@),
            decimal(n.modified_unix as nat),
            q(n.content_hash@),
            score@,
        ]);
    }
    push_stmt(
        out,
        render_values(
            "INSERT INTO notes(id, vault_id, path, title, modified_unix, content_hash, human_relevance_score) VALUES(",
            &parts,
        ),
    );
    let ghost fm = pair_views(n.frontmatter@);
    let ghost tags = string_views(n.tags@);
    let ghost links = link_views(n.links@);
    let ghost secs = section_views(n.sections@);
    let ghost head = base + seq![note_stmt(*n, vault_id@, score@)];
    let mut i: usize = 0;
    while i < n.frontmatter.len()
        invariant
            i <= n.frontmatter@.len(),
            fm == pair_views(n.frontmatter@),
            string_views(out@) == head + Seq::new(
                i as nat,
                |k: int| frontmatter_stmt(n.id@, fm[k]),
            ),
        decreases n.frontmatter@.len() - i,
    {
        let mut fparts: Vec<String> = Vec::new();
        fparts.push(sql_literal(n.id.as_str()));
        fparts.push(sql_literal(n.frontmatter[i].0.as_str()));
        fparts.push(sql_literal(n.frontmatter[i].1.as_str()));
        proof {
            assert(fm[i as int] == (n.frontmatter@[i as int].0@, n.frontmatter@[i as int].1@));
            assert(string_views(fparts@) =~= seq![q(n.id@), q(fm[i as int].0), q(fm[i as int].1)]);
        }
        push_stmt(out, render_values("INSERT INTO frontmatter(note_id, key, value) VALUES(", &fparts));
        proof {
            assert(string_views(out@) =~= head + Seq::new(
                (i + 1) as nat,
                |k: int| frontmatter_stmt(n.id@, fm[k]),
            ));
        }
        i = i + 1;
    }
    let ghost head2 = string_views(out@);
    let mut i: usize = 0;
    proof {
        assert(head2 + Seq::new(0, |k: int| tag_stmt(n.id@, tags[k], or_ignore)) =~= head2);
    }
    while i < n.tags.len()
        invariant
            i <= n.tags@.len(),
            tags == string_views(n.tags@),
            string_views(out@) == head2 + Seq::new(
                i as nat,
                |k: int| tag_stmt(n.id@, tags[k], or_ignore),
            ),
        decreases n.tags@.len() - i,
    {
        let mut tparts: Vec<String> = Vec::new();
        tparts.push(sql_literal(n.id.as_str()));
        tparts.push(sql_literal(n.tags[i].as_str()));
        proof {
            assert(string_views(tparts@) =~= seq![q(n.id@), q(tags[i as int])]);
        }
        let stmt = if or_ignore {
            render_values("INSERT OR IGNORE INTO tags(note_id, tag) VALUES(", &tparts)
        } else {
            render_values("INSERT INTO tags(note_id, tag) VALUES(", &tparts)
        };
        push_stmt(out, stmt);
        proof {
            assert(string_views(out@) =~= head2 + Seq::new(
                (i + 1) as nat,
                |k: int| tag_stmt(n.id@, tags[k], or_ignore),
            ));
        }
        i = i + 1;
    }
    let ghost head3 = string_views(out@);
    let mut i: usize = 0;
    proof {
        assert(head3 + Seq::new(0, |k: int| link_stmt(n.id@, links[k])) =~= head3);
    }
    while i < n.links.len()
        invariant
            i <= n.links@.len(),
            links == link_views(n.links@),
            string_views(out@) == head3 + Seq::new(i as nat, |k: int| link_stmt(n.id@, links[k])),
        decreases n.links@.len() - i,
    {
        let mut lparts: Vec<String> = Vec::new();
        lparts.push(sql_literal(n.id.as_str()));
        lparts.push(sql_literal(n.links[i].target.as_str()));
        lparts.push(sql_literal(n.links[i].raw.as_str()));
        proof {
            assert(string_views(lparts@) =~= seq![
                q(n.id@),
                q(links[i as int].1),
                q(links[i as int].2),
            ]);
        }
        push_stmt(
            out,
            render_values("INSERT INTO links(source_note_id, target, raw) VALUES(", &lparts),
        );
        proof {
            assert(string_views(out@) =~= head3 + Seq::new(
                (i + 1) as nat,
                |k: int| link_stmt(n.id@, links[k]),
            ));
        }
        i = i + 1;
    }
    let ghost head4 = string_views(out@);
    let ghost groups = Seq::new(secs.len(), |k: int| section_group(*n, secs[k], score@, fts));
    let mut i: usize = 0;
    proof {
        assert(groups.subrange(0, 0) =~= Seq::<Seq<Seq<char>>>::empty());
        assert(head4 + concat_all(groups.subrange(0, 0)) =~= head4);
    }
    while i < n.sections.len()
        invariant
            i <= n.sections@.len(),
            secs == section_views(n.sections@),
            groups == Seq::new(secs.len(), |k: int| section_group(*n, secs[k], score@, fts)),
            string_views(out@) == head4 + concat_all(groups.subrange(0, i as int)),
        decreases n.sections@.len() - i,
    {
        section_group_exec(out, n, &n.sections[i], score, fts);
        proof {
            let sub = groups.subrange(0, i + 1);
            assert(sub.drop_last() =~= groups.subrange(0, i as int));
            assert(sub.last() == section_group(*n, n.sections@[i as int]@, score@, fts));
            assert(string_views(out@) =~= head4 + concat_all(sub));
        }
        i = i + 1;
    }
    proof {
        assert(groups.subrange(0, n.sections@.len() as int) =~= groups);
        assert(string_views(out@) =~= string_views(old(out)@) + note_rows(
            *n,
            vault_id@,
            score@,
            fts,
            or_ignore,
        ));
    }
}

fn scan_rows_exec(
    out: &mut Vec<String>,
    scan: &VaultScan,
    scores: &Vec<String>,
    fts: bool,
    or_ignore: bool,
)
    requires
        scores@.len() == scan.notes@.len(),
    ensures
        string_views(final(out)@) == string_views(old(out)@) + scan_rows(
            *scan,
            string_views(scores@),
            fts,
            or_ignore,
        ),
{
    let ghost base = string_views(out@);
    let ghost groups = Seq::new(
        scan.notes@.len(),
        |k: int|
            note_rows(scan.notes@[k], scan.vault_id@, string_views(scores@)[k], fts, or_ignore),
    );
    let mut i: usize = 0;
    proof {
        assert(groups.subrange(0, 0) =~= Seq::<Seq<Seq<char>>>::empty());
        assert(base + concat_all(groups.subrange(0, 0)) =~= base);
    }
    while i < scan.notes.len()
        invariant
            i <= scan.notes@.len(),
            scores@.len() == scan.notes@.len(),
            groups == Seq::new(
                scan.notes@.len(),
                |k: int|
                    note_rows(
                        scan.notes@[k],
                        scan.vault_id@,
                        string_views(scores@)[k],
                        fts,
                        or_ignore,
                    ),
            ),
            string_views(out@) == base + concat_all(groups.subrange(0, i as int)),
        decreases scan.notes@.len() - i,
    {
        note_rows_exec(out, &scan.notes[i], scan.vault_id.as_str(), scores[i].as_str(), fts, or_ignore);
        proof {
            let sub = groups.subrange(0, i + 1);
            assert(sub.drop_last() =~= groups.subrange(0, i as int));
            assert(string_views(scores@)[i as int] == scores@[i as int]@);
            assert(string_views(out@) =~= base + concat_all(sub));
        }
        i = i + 1;
    }
    proof {
        assert(groups.subrange(0, scan.notes@.len() as int) =~= groups);
    }
}

/// Appends the row statements of `scan` to `statements`: for each note its
/// row, frontmatter, tags, links and sections, with the full-text rows of the
/// sections when `include_sections_fts` holds. `relevance_scores` gives each
/// note's human relevance score as SQL text.
pub fn append_row_statements(
    scan: &VaultScan,
    statements: &mut Vec<String>,
    include_sections_fts: bool,
    relevance_scores: &Vec<String>,
)
    requires
        relevance_scores@.len() == scan.notes@.len(),
    ensures
        string_views(final(statements)@) == string_views(old(statements)@) + scan_rows(
            *scan,
            string_views(relevance_scores@),
            include_sections_fts,
            false,
        ),
{
    scan_rows_exec(statements, scan, relevance_scores, include_sections_fts, false);
}

// ---------------------------------------------------------------------------
// Whole projections
// ---------------------------------------------------------------------------

pub open spec fn duckdb_now() -> Seq<char> {
    "epoch(CAST(now() AS TIMESTAMP))"@
}

pub open spec fn sqlite_now() -> Seq<char> {
    "strftime('%s','now')"@
}

pub open spec fn vault_stmt(vault_id: Seq<char>, root: Seq<char>, now: Seq<char>) -> Seq<char> {
    values_stmt(
        "INSERT INTO vaults(id, root_path, indexed_at_unix) VALUES("@,
        seq![q(vault_id), q(root), now],
    )
}

/// The id of an index run: derived from the vault id and the note count.
pub open spec fn run_id_spec(vault_id: Seq<char>, count: nat) -> Seq<char> {
    stable_id_spec("run"@, vault_id + seq![':'] + decimal(count))
}

pub open spec fn run_stmt(vault_id: Seq<char>, count: nat, now: Seq<char>) -> Seq<char> {
    values_stmt(
        "INSERT INTO index_runs(id, vault_id, started_at_unix, notes_indexed) VALUES("@,
        seq![q(run_id_spec(vault_id, count)), q(vault_id), now, decimal(count)],
    )
}

pub open spec fn duckdb_prelude() -> Seq<Seq<char>> {
    seq![
        "BEGIN TRANSACTION"@,
        "DELETE FROM embeddings"@,
        "DELETE FROM provenance"@,
        "DELETE FROM links"@,
        "DELETE FROM tags"@,
        "DELETE FROM frontmatter"@,
        "DELETE FROM sections"@,
        "DELETE FROM notes"@,
        "DELETE FROM vaults"@,
    ]
}

/// The DuckDB statements for a scan: the schema, a transaction that clears
/// every table, the vault row, the note rows, the index run, commit.
pub open spec fn duckdb_sync_spec(scan: VaultScan, root: Seq<char>, scores: Seq<Seq<char>>) -> Seq<
    Seq<char>,
> {
    schema_statements_spec(DUCKDB_SCHEMA@) + duckdb_prelude() + seq![
        vault_stmt(scan.vault_id@, root, duckdb_now()),
    ] + scan_rows(scan, scores, false, false) + seq![
        run_stmt(scan.vault_id@, scan.notes@.len(), duckdb_now()),
        "COMMIT"@,
    ]
}

pub open spec fn turso_prelude() -> Seq<Seq<char>> {
    seq!["BEGIN"@, "DELETE FROM sections_fts"@, "DELETE FROM vaults"@]
}

/// The rows a SQLite-compatible index receives: the vault row, the note rows
/// with full-text rows, the index run.
pub open spec fn sqlite_rows(scan: VaultScan, root: Seq<char>, scores: Seq<Seq<char>>) -> Seq<
    Seq<char>,
> {
    seq![vault_stmt(scan.vault_id@, root, sqlite_now())] + scan_rows(scan, scores, true, true)
        + seq![run_stmt(scan.vault_id@, scan.notes@.len(), sqlite_now())]
}

/// The libSQL/Turso statements for a scan: the SQLite schema, a transaction
/// that clears the vault, its rows, commit.
pub open spec fn turso_sync_spec(scan: VaultScan, root: Seq<char>, scores: Seq<Seq<char>>) -> Seq<
    Seq<char>,
> {
    schema_statements_spec(SQLITE_SCHEMA@) + turso_prelude() + sqlite_rows(scan, root, scores)
        + seq!["COMMIT"@]
}

/// Each statement followed by `;` and a line break.
pub open spec fn terminated(stmts: Seq<Seq<char>>) -> Seq<char>
    decreases stmts.len(),
{
    if stmts.len() == 0 {
        seq![]
    } else {
        terminated(stmts.drop_last()) + stmts.last() + ";\n"@
    }
}

/// The script the `sqlite3` shell receives: the schema, a transaction that
/// clears the vault, the same rows as the Turso projection, commit.
pub open spec fn sqlite_script_spec(scan: VaultScan, root: Seq<char>, scores: Seq<Seq<char>>) -> Seq<
    char,
> {
    SQLITE_SCHEMA@ + "\nBEGIN;\nDELETE FROM sections_fts;\nDELETE FROM vaults;\n"@ + terminated(
        sqlite_rows(scan, root, scores),
    ) + "COMMIT;\n"@
}

fn vault_stmt_exec(vault_id: &str, root: &str, now: &str) -> (r: String)
    ensures
        r@ == vault_stmt(vault_id@, root@, now@),
{
    let mut parts: Vec<String> = Vec::new();
    parts.push(sql_literal(vault_id));
    parts.push(sql_literal(root));
    parts.push(copy_string(now));
    proof {
        assert(string_views(parts@) =~= seq![q(vault_id@), q(root@), now@]);
    }
    render_values("INSERT INTO vaults(id, root_path, indexed_at_unix) VALUES(", &parts)
}

fn run_stmt_exec(vault_id: &str, count: usize, now: &str) -> (r: String)
    ensures
        r@ == run_stmt(vault_id@, count as nat, now@),
{
    let mut key = copy_string(vault_id);
    push_char(&mut key, ':');
    let n = decimal_string(count as u64);
    push_str(&mut key, n.as_str());
    let run_id = stable_id("run", key.as_str());
    proof {
        assert(key@ =~= vault_id@ + seq![':'] + decimal(count as nat));
    }
    let mut parts: Vec<String> = Vec::new();
    parts.push(sql_literal(run_id.as_str()));
    parts.push(sql_literal(vault_id));
    parts.push(copy_string(now));
    parts.push(decimal_string(count as u64));
    proof {
        assert(string_views(parts@) =~= seq![
            q(run_id_spec(vault_id@, count as nat)),
            q(vault_id@),
            now@,
            decimal(count as nat),
        ]);
    }
    render_values(
        "INSERT INTO index_runs(id, vault_id, started_at_unix, notes_indexed) VALUES(",
        &parts,
    )
}

fn push_literal(out: &mut Vec<String>, s: &str)
    ensures
        string_views(final(out)@) == string_views(old(out)@).push(s@),
{
    push_stmt(out, copy_string(s));
}

/// The DuckDB statements that replace the sidecar's contents with `scan`.
pub fn duckdb_sync_statements(scan: &VaultScan, vault_root: &str, relevance_scores: &Vec<String>) -> (r:
    Vec<String>)
    requires
        relevance_scores@.len() == scan.notes@.len(),
    ensures
        string_views(r@) == duckdb_sync_spec(*scan, vault_root@, string_views(relevance_scores@)),
{
    let mut statements = schema_statements_from(DUCKDB_SCHEMA);
    push_literal(&mut statements, "BEGIN TRANSACTION");
    push_literal(&mut statements, "DELETE FROM embeddings");
    push_literal(&mut statements, "DELETE FROM provenance");
    push_literal(&mut statements, "DELETE FROM links");
    push_literal(&mut statements, "DELETE FROM tags");
    push_literal(&mut statements, "DELETE FROM frontmatter");
    push_literal(&mut statements, "DELETE FROM sections");
    push_literal(&mut statements, "DELETE FROM notes");
    push_literal(&mut statements, "DELETE FROM vaults");
    let ghost after_prelude = string_views(statements@);
    proof {
        assert(after_prelude =~= schema_statements_spec(DUCKDB_SCHEMA@) + duckdb_prelude());
    }
    push_stmt(
        &mut statements,
        vault_stmt_exec(scan.vault_id.as_str(), vault_root, "epoch(CAST(now() AS TIMESTAMP))"),
    );
    append_row_statements(scan, &mut statements, false, relevance_scores);
    push_stmt(
        &mut statements,
        run_stmt_exec(scan.vault_id.as_str(), scan.notes.len(), "epoch(CAST(now() AS TIMESTAMP))"),
    );
    push_literal(&mut statements, "COMMIT");
    proof {
        assert(string_views(statements@) =~= duckdb_sync_spec(
            *scan,
            vault_root@,
            string_views(relevance_scores@),
        ));
    }
    statements
}

fn sqlite_rows_exec(scan: &VaultScan, vault_root: &str, relevance_scores: &Vec<String>) -> (r: Vec<
    String,
>)
    requires
        relevance_scores@.len() == scan.notes@.len(),
    ensures
        string_views(r@) == sqlite_rows(*scan, vault_root@, string_views(relevance_scores@)),
{
    let mut rows: Vec<String> = Vec::new();
    push_stmt(&mut rows, vault_stmt_exec(scan.vault_id.as_str(), vault_root, "strftime('%s','now')"));
    scan_rows_exec(&mut rows, scan, relevance_scores, true, true);
    push_stmt(
        &mut rows,
        run_stmt_exec(scan.vault_id.as_str(), scan.notes.len(), "strftime('%s','now')"),
    );
    proof {
        assert(string_views(rows@) =~= sqlite_rows(
            *scan,
            vault_root@,
            string_views(relevance_scores@),
        ));
    }
    rows
}

/// The statements of the SQLite schema, one per element.
pub fn schema_statements() -> (r: Vec<String>)
    ensures
        string_views(r@) == schema_statements_spec(SQLITE_SCHEMA@),
{
    schema_statements_from(SQLITE_SCHEMA)
}

/// The libSQL/Turso statements that replace the vault's rows with `scan`.
pub fn turso_sync_statements(scan: &VaultScan, vault_root: &str, relevance_scores: &Vec<String>) -> (r:
    Vec<String>)
    requires
        relevance_scores@.len() == scan.notes@.len(),
    ensures
        string_views(r@) == turso_sync_spec(*scan, vault_root@, string_views(relevance_scores@)),
{
    let mut statements = schema_statements();
    push_literal(&mut statements, "BEGIN");
    push_literal(&mut statements, "DELETE FROM sections_fts");
    push_literal(&mut statements, "DELETE FROM vaults");
    let rows = sqlite_rows_exec(scan, vault_root, relevance_scores);
    let ghost before = string_views(statements@);
    let mut i: usize = 0;
    proof {
        assert(string_views(rows@).subrange(0, 0) =~= Seq::<Seq<char>>::empty());
        assert(before + string_views(rows@).subrange(0, 0) =~= before);
    }
    while i < rows.len()
        invariant
            i <= rows@.len(),
            string_views(statements@) == before + string_views(rows@).subrange(0, i as int),
        decreases rows@.len() - i,
    {
        push_stmt(&mut statements, rows[i].clone());
        proof {
            assert(string_views(rows@).subrange(0, i + 1) =~= string_views(rows@).subrange(
                0,
                i as int,
            ).push(rows@[i as int]@));
        }
        i = i + 1;
    }
    push_literal(&mut statements, "COMMIT");
    proof {
        assert(string_views(rows@).subrange(0, rows@.len() as int) =~= string_views(rows@));
        assert(string_views(statements@) =~= turso_sync_spec(
            *scan,
            vault_root@,
            string_views(relevance_scores@),
        ));
    }
    statements
}

/// The script that the `sqlite3` shell runs to write `scan` into a fresh
/// local database.
pub fn sqlite_write_script(scan: &VaultScan, vault_root: &str, relevance_scores: &Vec<String>) -> (r:
    String)
    requires
        relevance_scores@.len() == scan.notes@.len(),
    ensures
        r@ == sqlite_script_spec(*scan, vault_root@, string_views(relevance_scores@)),
{
    let mut script = copy_string(SQLITE_SCHEMA);
    push_str(&mut script, "\nBEGIN;\nDELETE FROM sections_fts;\nDELETE FROM vaults;\n");
    let ghost before = script@;
    let rows = sqlite_rows_exec(scan, vault_root, relevance_scores);
    let mut i: usize = 0;
    proof {
        assert(string_views(rows@).subrange(0, 0) =~= Seq::<Seq<char>>::empty());
        assert(before + terminated(string_views(rows@).subrange(0, 0)) =~= before);
    }
    while i < rows.len()
        invariant
            i <= rows@.len(),
            script@ == before + terminated(string_views(rows@).subrange(0, i as int)),
        decreases rows@.len() - i,
    {
        push_str(&mut script, rows[i].as_str());
        push_str(&mut script, ";\n");
        proof {
            let sub = string_views(rows@).subrange(0, i + 1);
            assert(sub.drop_last() =~= string_views(rows@).subrange(0, i as int));
            assert(sub.last() == rows@[i as int]@);
            assert(script@ =~= before + terminated(sub));
        }
        i = i + 1;
    }
    push_str(&mut script, "COMMIT;\n");
    proof {
        assert(string_views(rows@).subrange(0, rows@.len() as int) =~= string_views(rows@));
    }
    script
}

/// A local SQLite index and a remote Turso/libSQL database receive the same
/// rows for a scan: the Turso statements are the SQLite schema statements,
/// the opening of the transaction, exactly the rows that the local script
/// writes one per line, and the commit.
pub proof fn lemma_local_and_remote_rows_agree(scan: VaultScan, root: Seq<char>, scores: Seq<Seq<char>>)
    ensures
        ({
            let remote = turso_sync_spec(scan, root, scores);
            let rows = sqlite_rows(scan, root, scores);
            let head = schema_statements_spec(SQLITE_SCHEMA@).len() + turso_prelude().len();
            &&& remote.subrange(head as int, remote.len() - 1) == rows
            &&& remote.last() == "COMMIT"@
            &&& sqlite_script_spec(scan, root, scores) == SQLITE_SCHEMA@
                + "\nBEGIN;\nDELETE FROM sections_fts;\nDELETE FROM vaults;\n"@ + terminated(
                remote.subrange(head as int, remote.len() - 1),
            ) + "COMMIT;\n"@
        }),
{
    let remote = turso_sync_spec(scan, root, scores);
    let rows = sqlite_rows(scan, root, scores);
    let pre = schema_statements_spec(SQLITE_SCHEMA@) + turso_prelude();
    assert(remote =~= pre + rows + seq!["COMMIT"@]);
    assert(remote.subrange(pre.len() as int, remote.len() - 1) =~= rows);
}

// ---------------------------------------------------------------------------
// How many statements a scan produces, and which
// ---------------------------------------------------------------------------
/// The statements of one note: its row, one per frontmatter pair, tag and
/// link, and per section two (row and provenance) or three (with the
/// full-text row).
pub open spec fn note_row_count(n: NoteRecord, fts: bool) -> nat {
    1 + n.frontmatter@.len() + n.tags@.len() + n.links@.len() + (if fts {
        3nat
    } else {
        2nat
    }) * n.sections@.len()
}

pub open spec fn rows_count(notes: Seq<NoteRecord>, fts: bool) -> nat
    decreases notes.len(),
{
    if notes.len() == 0 {
        0
    } else {
        rows_count(notes.drop_last(), fts) + note_row_count(notes.last(), fts)
    }
}

/// A full-text row.
pub open spec fn is_fts_row(s: Seq<char>) -> bool {
    starts_with(s, "INSERT INTO sections_fts"@)
}

proof fn lemma_concat_all_uniform(gs: Seq<Seq<Seq<char>>>, c: nat)
    requires
        forall|i: int| 0 <= i < gs.len() ==> (#[trigger] gs[i]).len() == c,
    ensures
        concat_all(gs).len() == c * gs.len(),
    decreases gs.len(),
{
    if gs.len() > 0 {
        lemma_concat_all_uniform(gs.drop_last(), c);
        assert(c * gs.len() == c * (gs.len() - 1) + c) by (nonlinear_arith)
            requires
                gs.len() > 0,
        ;
    }
}

proof fn lemma_concat_all_all(gs: Seq<Seq<Seq<char>>>, p: spec_fn(Seq<char>) -> bool)
    requires
        forall|i: int, j: int| 0 <= i < gs.len() && 0 <= j < gs[i].len() ==> p(#[trigger] gs[i][j]),
    ensures
        forall|j: int| 0 <= j < concat_all(gs).len() ==> p(#[trigger] concat_all(gs)[j]),
    decreases gs.len(),
{
    if gs.len() > 0 {
        lemma_concat_all_all(gs.drop_last(), p);
        let a = concat_all(gs.drop_last());
        assert forall|j: int| 0 <= j < concat_all(gs).len() implies p(#[trigger] concat_all(gs)[j]) by {
            if j < a.len() {
                assert(concat_all(gs)[j] == a[j]);
            } else {
                assert(concat_all(gs)[j] == gs[gs.len() - 1][j - a.len()]);
            }
        }
    }
}

/// A statement closed by `)`, as every row statement is.
pub open spec fn closes_with_paren(s: Seq<char>) -> bool {
    s.len() > 0 && s.last() == ')'
}

/// A statement that starts with `head`, which differs from the full-text
/// prefix at position `k`, is no full-text row.
proof fn lemma_head_not_fts(head: Seq<char>, parts: Seq<Seq<char>>, k: int)
    requires
        head.len() >= 24,
        0 <= k < 24,
        head[k] != "INSERT INTO sections_fts"@[k],
    ensures
        !is_fts_row(values_stmt(head, parts)),
{
    reveal_strlit("INSERT INTO sections_fts");
    let st = values_stmt(head, parts);
    assert(st[k] == head[k]);
    if is_fts_row(st) {
        assert(st.subrange(0, 24)[k] == st[k]);
    }
}

proof fn lemma_note_rows_shape(n: NoteRecord, vault_id: Seq<char>, score: Seq<char>, fts: bool, or_ignore: bool)
    ensures
        note_rows(n, vault_id, score, fts, or_ignore).len() == note_row_count(n, fts),
        !fts ==> forall|j: int|
            0 <= j < note_rows(n, vault_id, score, fts, or_ignore).len() ==> !is_fts_row(
                #[trigger] note_rows(n, vault_id, score, fts, or_ignore)[j],
            ),
        forall|j: int|
            0 <= j < note_rows(n, vault_id, score, fts, or_ignore).len() ==> closes_with_paren(
                #[trigger] note_rows(n, vault_id, score, fts, or_ignore)[j],
            ),
{
    let fm = pair_views(n.frontmatter@);
    let tags = string_views(n.tags@);
    let links = link_views(n.links@);
    let secs = section_views(n.sections@);
    let groups = Seq::new(secs.len(), |i: int| section_group(n, secs[i], score, fts));
    let c: nat = if fts {
        3
    } else {
        2
    };
    assert forall|i: int| 0 <= i < groups.len() implies (#[trigger] groups[i]).len() == c by {}
    lemma_concat_all_uniform(groups, c);
    reveal_strlit(")");
    assert forall|i: int, j: int| 0 <= i < groups.len() && 0 <= j < groups[i].len() implies closes_with_paren(
        #[trigger] groups[i][j],
    ) by {}
    lemma_concat_all_all(groups, |x: Seq<char>| closes_with_paren(x));
    {
        let rows = note_rows(n, vault_id, score, fts, or_ignore);
        let a = 1 + fm.len();
        let b = a + tags.len();
        let d = b + links.len();
        assert forall|j: int| 0 <= j < rows.len() implies closes_with_paren(#[trigger] rows[j]) by {
            if j >= d {
                assert(rows[j] == concat_all(groups)[j - d]);
            }
        }
    }
    if !fts {
        reveal_strlit("INSERT INTO sections_fts");
        reveal_strlit("INSERT INTO notes(id, vault_id, path, title, modified_unix, content_hash, human_relevance_score) VALUES(");
        reveal_strlit("INSERT INTO frontmatter(note_id, key, value) VALUES(");
        reveal_strlit("INSERT OR IGNORE INTO tags(note_id, tag) VALUES(");
        reveal_strlit("INSERT INTO tags(note_id, tag) VALUES(");
        reveal_strlit("INSERT INTO links(source_note_id, target, raw) VALUES(");
        reveal_strlit("INSERT INTO sections(id, note_id, heading_path, level, text, content_hash, human_relevance_score) VALUES(");
        reveal_strlit("INSERT INTO provenance(chunk_id, note_path, heading_path, content_hash, modified_unix, human_relevance_score) VALUES(");
        assert forall|i: int, j: int| 0 <= i < groups.len() && 0 <= j < groups[i].len() implies !is_fts_row(
            #[trigger] groups[i][j],
        ) by {
            let s = secs[i];
            if j == 0 {
                lemma_head_not_fts(
                    "INSERT INTO sections(id, note_id, heading_path, level, text, content_hash, human_relevance_score) VALUES("@,
                    seq![q(s.0), q(n.id@), q(s.2), decimal(s.3 as nat), q(s.4), q(s.5), score],
                    20,
                );
            } else {
                lemma_head_not_fts(
                    "INSERT INTO provenance(chunk_id, note_path, heading_path, content_hash, modified_unix, human_relevance_score) VALUES("@,
                    seq![q(s.0), q(n.path@), q(s.2), q(s.5), decimal(n.modified_unix as nat), score],
                    12,
                );
            }
        }
        lemma_concat_all_all(groups, |x: Seq<char>| !is_fts_row(x));
        let rows = note_rows(n, vault_id, score, fts, or_ignore);
        let a = 1 + fm.len();
        let b = a + tags.len();
        let d = b + links.len();
        assert forall|j: int| 0 <= j < rows.len() implies !is_fts_row(#[trigger] rows[j]) by {
            if j == 0 {
                lemma_head_not_fts(
                    "INSERT INTO notes(id, vault_id, path, title, modified_unix, content_hash, human_relevance_score) VALUES("@,
                    seq![
                        q(n.id@),
                        q(vault_id),
                        q(n.path@),
                        q(n.title@),
                        decimal(n.modified_unix as nat),
                        q(n.content_hash@),
                        score,
                    ],
                    12,
                );
            } else if j < a {
                assert(rows[j] == frontmatter_stmt(n.id@, fm[j - 1]));
                lemma_head_not_fts(
                    "INSERT INTO frontmatter(note_id, key, value) VALUES("@,
                    seq![q(n.id@), q(fm[j - 1].0), q(fm[j - 1].1)],
                    12,
                );
            } else if j < b {
                assert(rows[j] == tag_stmt(n.id@, tags[j - a], or_ignore));
                if or_ignore {
                    lemma_head_not_fts(tag_head(true), seq![q(n.id@), q(tags[j - a])], 7);
                } else {
                    lemma_head_not_fts(tag_head(false), seq![q(n.id@), q(tags[j - a])], 12);
                }
            } else if j < d {
                assert(rows[j] == link_stmt(n.id@, links[j - b]));
                lemma_head_not_fts(
                    "INSERT INTO links(source_note_id, target, raw) VALUES("@,
                    seq![q(n.id@), q(links[j - b].1), q(links[j - b].2)],
                    12,
                );
            } else {
                assert(rows[j] == concat_all(groups)[j - d]);
            }
        }
    }
}

proof fn lemma_scan_rows_prefix(scan: VaultScan, scores: Seq<Seq<char>>, fts: bool, or_ignore: bool, k: nat)
    requires
        k <= scan.notes@.len(),
    ensures
        ({
            let gs = Seq::new(
                k,
                |i: int| note_rows(scan.notes@[i], scan.vault_id@, scores[i], fts, or_ignore),
            );
            &&& concat_all(gs).len() == rows_count(scan.notes@.take(k as int), fts)
            &&& !fts ==> forall|j: int| 0 <= j < concat_all(gs).len() ==> !is_fts_row(#[trigger] concat_all(gs)[j])
            &&& forall|j: int| 0 <= j < concat_all(gs).len() ==> closes_with_paren(#[trigger] concat_all(gs)[j])
        }),
    decreases k,
{
    let gs = Seq::new(k, |i: int| note_rows(scan.notes@[i], scan.vault_id@, scores[i], fts, or_ignore));
    if k > 0 {
        lemma_scan_rows_prefix(scan, scores, fts, or_ignore, (k - 1) as nat);
        let prev = Seq::new(
            (k - 1) as nat,
            |i: int| note_rows(scan.notes@[i], scan.vault_id@, scores[i], fts, or_ignore),
        );
        assert(gs.drop_last() =~= prev);
        let n = scan.notes@[k - 1];
        lemma_note_rows_shape(n, scan.vault_id@, scores[k - 1], fts, or_ignore);
        assert(scan.notes@.take(k as int).drop_last() =~= scan.notes@.take(k - 1));
        assert(scan.notes@.take(k as int).last() == n);
        {
            let a = concat_all(prev);
            assert forall|j: int| 0 <= j < concat_all(gs).len() implies closes_with_paren(
                #[trigger] concat_all(gs)[j],
            ) by {
                if j < a.len() {
                    assert(concat_all(gs)[j] == a[j]);
                } else {
                    assert(concat_all(gs)[j] == gs[k - 1][j - a.len()]);
                }
            }
        }
        if !fts {
            let a = concat_all(prev);
            assert forall|j: int| 0 <= j < concat_all(gs).len() implies !is_fts_row(
                #[trigger] concat_all(gs)[j],
            ) by {
                if j < a.len() {
                    assert(concat_all(gs)[j] == a[j]);
                } else {
                    assert(concat_all(gs)[j] == gs[k - 1][j - a.len()]);
                }
            }
        }
    } else {
        assert(scan.notes@.take(0) =~= Seq::<NoteRecord>::empty());
    }
}

/// The rows of a scan (what `append_row_statements` appends): as many
/// statements as its notes call for, each closed by `)`, and no full-text
/// rows unless asked for.
pub proof fn lemma_scan_rows_count(scan: VaultScan, scores: Seq<Seq<char>>, fts: bool, or_ignore: bool)
    ensures
        scan_rows(scan, scores, fts, or_ignore).len() == rows_count(scan.notes@, fts),
        !fts ==> forall|j: int|
            0 <= j < scan_rows(scan, scores, fts, or_ignore).len() ==> !is_fts_row(
                #[trigger] scan_rows(scan, scores, fts, or_ignore)[j],
            ),
        forall|j: int|
            0 <= j < scan_rows(scan, scores, fts, or_ignore).len() ==> closes_with_paren(
                #[trigger] scan_rows(scan, scores, fts, or_ignore)[j],
            ),
{
    lemma_scan_rows_prefix(scan, scores, fts, or_ignore, scan.notes@.len());
    assert(scan.notes@.take(scan.notes@.len() as int) =~= scan.notes@);
}

proof fn lemma_short_not_fts(t: Seq<char>)
    requires
        t.len() < 24,
    ensures
        !is_fts_row(t),
{
    reveal_strlit("INSERT INTO sections_fts");
}

/// The DuckDB statements of a scan: after the schema's `k` statements come
/// `BEGIN TRANSACTION`, the eight deletes, the vault row, the rows of the
/// notes (two per section), the index run and `COMMIT`; `k + 12` plus the
/// notes' rows in all, and no full-text row after the schema.
pub proof fn lemma_duckdb_statements_shape(scan: VaultScan, root: Seq<char>, scores: Seq<Seq<char>>)
    ensures
        ({
            let r = duckdb_sync_spec(scan, root, scores);
            let k = schema_statements_spec(DUCKDB_SCHEMA@).len();
            &&& r.len() == k + 12 + rows_count(scan.notes@, false)
            &&& r.subrange(k as int, k + 9int) == duckdb_prelude()
            &&& r[k as int] == "BEGIN TRANSACTION"@
            &&& r.last() == "COMMIT"@
            &&& forall|j: int| k <= j < r.len() ==> !is_fts_row(#[trigger] r[j])
        }),
{
    let r = duckdb_sync_spec(scan, root, scores);
    let sch = schema_statements_spec(DUCKDB_SCHEMA@);
    let k = sch.len();
    let rows = scan_rows(scan, scores, false, false);
    lemma_scan_rows_count(scan, scores, false, false);
    let tail = seq![vault_stmt(scan.vault_id@, root, duckdb_now())] + rows + seq![
        run_stmt(scan.vault_id@, scan.notes@.len(), duckdb_now()),
        "COMMIT"@,
    ];
    assert(r =~= sch + duckdb_prelude() + tail);
    assert(r.subrange(k as int, k + 9int) =~= duckdb_prelude());
    reveal_strlit("BEGIN TRANSACTION");
    reveal_strlit("DELETE FROM embeddings");
    reveal_strlit("DELETE FROM provenance");
    reveal_strlit("DELETE FROM links");
    reveal_strlit("DELETE FROM tags");
    reveal_strlit("DELETE FROM frontmatter");
    reveal_strlit("DELETE FROM sections");
    reveal_strlit("DELETE FROM notes");
    reveal_strlit("DELETE FROM vaults");
    reveal_strlit("COMMIT");
    reveal_strlit("INSERT INTO sections_fts");
    reveal_strlit("INSERT INTO vaults(id, root_path, indexed_at_unix) VALUES(");
    reveal_strlit("INSERT INTO index_runs(id, vault_id, started_at_unix, notes_indexed) VALUES(");
    assert forall|j: int| k <= j < r.len() implies !is_fts_row(#[trigger] r[j]) by {
        if j < k + 9 {
            let t = duckdb_prelude()[j - k];
            assert(r[j] == t);
            lemma_short_not_fts(t);
        } else if j == k + 9 {
            lemma_head_not_fts(
                "INSERT INTO vaults(id, root_path, indexed_at_unix) VALUES("@,
                seq![q(scan.vault_id@), q(root), duckdb_now()],
                12,
            );
        } else if j < k + 10 + rows.len() {
            assert(r[j] == rows[j - k - 10]);
        } else if j == k + 10 + rows.len() {
            lemma_head_not_fts(
                "INSERT INTO index_runs(id, vault_id, started_at_unix, notes_indexed) VALUES("@,
                seq![
                    q(run_id_spec(scan.vault_id@, scan.notes@.len())),
                    q(scan.vault_id@),
                    duckdb_now(),
                    decimal(scan.notes@.len()),
                ],
                12,
            );
        } else {
            lemma_short_not_fts("COMMIT"@);
        }
    }
}

/// The libSQL/Turso statements of a scan: after the SQLite schema's `k`
/// statements come `BEGIN` and the two deletes, the vault row, the rows of
/// the notes (three per section), the index run and `COMMIT`; `k + 6` plus
/// the notes' rows in all, and no statement carries a `;` at its end.
pub proof fn lemma_turso_statements_shape(scan: VaultScan, root: Seq<char>, scores: Seq<Seq<char>>)
    ensures
        ({
            let r = turso_sync_spec(scan, root, scores);
            let k = schema_statements_spec(SQLITE_SCHEMA@).len();
            &&& r.len() == k + 6 + rows_count(scan.notes@, true)
            &&& r.subrange(k as int, k + 3int) == turso_prelude()
            &&& starts_with(r[k + 3int], "INSERT INTO vaults("@)
            &&& starts_with(r[r.len() - 2], "INSERT INTO index_runs("@)
            &&& r.last() == "COMMIT"@
            &&& forall|j: int| 0 <= j < r.len() ==> !crate::text::ends_with(#[trigger] r[j], ";"@)
        }),
{
    let r = turso_sync_spec(scan, root, scores);
    let sch = schema_statements_spec(SQLITE_SCHEMA@);
    let k = sch.len();
    let rows = sqlite_rows(scan, root, scores);
    let inner = scan_rows(scan, scores, true, true);
    lemma_scan_rows_count(scan, scores, true, true);
    assert(r =~= sch + turso_prelude() + rows + seq!["COMMIT"@]);
    assert(r.subrange(k as int, k + 3int) =~= turso_prelude());
    reveal_strlit(";");
    reveal_strlit("BEGIN");
    reveal_strlit("DELETE FROM sections_fts");
    reveal_strlit("DELETE FROM vaults");
    reveal_strlit("COMMIT");
    reveal_strlit(")");
    reveal_strlit("INSERT INTO vaults(");
    reveal_strlit("INSERT INTO index_runs(");
    reveal_strlit("INSERT INTO vaults(id, root_path, indexed_at_unix) VALUES(");
    reveal_strlit("INSERT INTO index_runs(id, vault_id, started_at_unix, notes_indexed) VALUES(");
    let vs = vault_stmt(scan.vault_id@, root, sqlite_now());
    let rs = run_stmt(scan.vault_id@, scan.notes@.len(), sqlite_now());
    assert(r[k + 3int] == vs);
    assert(vs.subrange(0, 19) =~= "INSERT INTO vaults("@);
    assert(r[r.len() - 2] == rs);
    assert(rs.subrange(0, 23) =~= "INSERT INTO index_runs("@);
    crate::sql::lemma_schema_statements_no_semicolon(SQLITE_SCHEMA@);
    assert forall|j: int| 0 <= j < r.len() implies !crate::text::ends_with(#[trigger] r[j], ";"@) by {
        let x = r[j];
        if j < k {
            assert(x == sch[j]);
        }
        if j >= k + 3 && j < r.len() - 1 {
            let i = j - k - 3;
            if i == 0 {
                assert(x == vs);
            } else if i < 1 + inner.len() {
                assert(x == inner[i - 1]);
                assert(closes_with_paren(inner[i - 1]));
            } else {
                assert(x == rs);
            }
            assert(x.last() == ')');
        }
        if crate::text::ends_with(x, ";"@) {
            assert(x.subrange(x.len() - 1, x.len() as int)[0] == x.last());
        }
    }
}

/// What `append_row_statements` leaves behind: the statements it was given,
/// unchanged, followed by as many rows as the notes call for (two or three
/// per section), none of them a full-text row when those are not asked for.
pub proof fn lemma_appended_rows(old_statements: Seq<Seq<char>>, scan: VaultScan, scores: Seq<Seq<char>>, fts: bool)
    ensures
        ({
            let new = old_statements + scan_rows(scan, scores, fts, false);
            &&& new.subrange(0, old_statements.len() as int) == old_statements
            &&& new.len() == old_statements.len() + rows_count(scan.notes@, fts)
            &&& !fts ==> forall|j: int|
                old_statements.len() <= j < new.len() ==> !is_fts_row(#[trigger] new[j])
        }),
{
    let rows = scan_rows(scan, scores, fts, false);
    lemma_scan_rows_count(scan, scores, fts, false);
    let new = old_statements + rows;
    assert(new.subrange(0, old_statements.len() as int) =~= old_statements);
    if !fts {
        assert forall|j: int| old_statements.len() <= j < new.len() implies !is_fts_row(
            #[trigger] new[j],
        ) by {
            assert(new[j] == rows[j - old_statements.len()]);
        }
    }
}


/// The columns of the `notes` table, in the order the row lists them.
pub open spec fn notes_columns() -> Seq<Seq<char>> {
    seq![
        "id"@,
        "vault_id"@,
        "path"@,
        "title"@,
        "modified_unix"@,
        "content_hash"@,
        "human_relevance_score"@,
    ]
}

/// What the `notes` row of note `n` holds in the column named `column`.
pub open spec fn note_column_value(n: NoteRecord, vault_id: Seq<char>, score: Seq<char>, column: Seq<char>) -> Seq<char> {
    if column == "id"@ {
        sql_literal_spec(n.id@)
    } else if column == "vault_id"@ {
        sql_literal_spec(vault_id)
    } else if column == "path"@ {
        sql_literal_spec(n.path@)
    } else if column == "title"@ {
        sql_literal_spec(n.title@)
    } else if column == "modified_unix"@ {
        decimal(n.modified_unix as nat)
    } else if column == "content_hash"@ {
        sql_literal_spec(n.content_hash@)
    } else {
        score
    }
}

/// The `notes` row of a note names its columns and then gives, in the same
/// order, the value of each: the quoted id, vault id, path and title, the
/// modification time, the quoted content hash and the score text.
pub proof fn lemma_note_row_values_follow_columns(n: NoteRecord, vault_id: Seq<char>, score: Seq<char>)
    ensures
        note_stmt(n, vault_id, score) == "INSERT INTO notes("@ + join_with(notes_columns(), ", "@) + ") VALUES("@
            + join_with(
            notes_columns().map_values(|c: Seq<char>| note_column_value(n, vault_id, score, c)),
            ", "@,
        ) + ")"@,
{
    reveal_strlit("INSERT INTO notes(id, vault_id, path, title, modified_unix, content_hash, human_relevance_score) VALUES(");
    reveal_strlit("INSERT INTO notes(");
    reveal_strlit(") VALUES(");
    reveal_strlit(", ");
    reveal_strlit("id");
    reveal_strlit("vault_id");
    reveal_strlit("path");
    reveal_strlit("title");
    reveal_strlit("modified_unix");
    reveal_strlit("content_hash");
    reveal_strlit("human_relevance_score");
    let cols = notes_columns();
    let vals = cols.map_values(|c: Seq<char>| note_column_value(n, vault_id, score, c));
    assert("id"@.len() == 2 && "vault_id"@.len() == 8 && "path"@.len() == 4 && "title"@.len() == 5);
    assert("modified_unix"@.len() == 13 && "content_hash"@.len() == 12);
    assert("human_relevance_score"@.len() == 21);
    assert(vals[0] == q(n.id@));
    assert(vals[1] == q(vault_id));
    assert(vals[2] == q(n.path@));
    assert(vals[3] == q(n.title@));
    assert(vals[4] == decimal(n.modified_unix as nat));
    assert(vals[5] == q(n.content_hash@));
    assert(vals[6] == score);
    assert(vals =~= seq![
        q(n.id@),
        q(vault_id),
        q(n.path@),
        q(n.title@),
        decimal(n.modified_unix as nat),
        q(n.content_hash@),
        score,
    ]);
    reveal_with_fuel(join_with, 8);
    assert("INSERT INTO notes("@ + join_with(cols, ", "@) + ") VALUES("@
        =~= "INSERT INTO notes(id, vault_id, path, title, modified_unix, content_hash, human_relevance_score) VALUES("@);
}

} // verus!
