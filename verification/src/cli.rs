//! The command-line surface: which command an argument names, how options are
//! read, and the queries and scripts that the commands hand to the stores.
use vstd::prelude::*;

use crate::config::eq_chars_str;
use crate::note::string_views;
use crate::ids::{decimal, push_decimal};
use crate::note::words;
use crate::sql::{join_with, sql_literal, sql_literal_spec};
use crate::text::{match_at, push_char, push_str, starts_with, to_chars, trim_set, CharSet};

verus! {

/// Commands planned for the first public CLI surface.
pub const COMMANDS: [&'static str; 8] = [
    "init",
    "index",
    "search",
    "context",
    "serve",
    "backend-info",
    "sqlite-vec-info",
    "sync-turso",
];

pub open spec fn planned_commands() -> Seq<Seq<char>> {
    seq![
        "init"@,
        "index"@,
        "search"@,
        "context"@,
        "serve"@,
        "backend-info"@,
        "sqlite-vec-info"@,
        "sync-turso"@,
    ]
}

/// What the first command-line argument asks for.
#[derive(Debug, Clone, Copy, PartialEq, Eq, Structural)]
pub enum Command {
    Help,
    Init,
    Index,
    SyncTurso,
    Search,
    GetNote,
    Related,
    Embed,
    VectorSearch,
    HybridSearch,
    Context,
    Serve,
    BackendInfo,
    Doctor,
    SqliteVecInfo,
    /// A planned command without an implementation yet.
    Planned,
    /// Anything else: reported, with the help text, as an error.
    Unknown,
}

pub open spec fn command_spec(arg: Option<Seq<char>>) -> Command {
    match arg {
        None => Command::Help,
        Some(a) => if a == "-h"@ || a == "--help"@ {
            Command::Help
        } else if a == "init"@ {
            Command::Init
        } else if a == "index"@ {
            Command::Index
        } else if a == "sync-turso"@ {
            Command::SyncTurso
        } else if a == "search"@ {
            Command::Search
        } else if a == "get-note"@ {
            Command::GetNote
        } else if a == "related"@ {
            Command::Related
        } else if a == "embed"@ {
            Command::Embed
        } else if a == "vector-search"@ {
            Command::VectorSearch
        } else if a == "hybrid-search"@ {
            Command::HybridSearch
        } else if a == "context"@ {
            Command::Context
        } else if a == "serve"@ {
            Command::Serve
        } else if a == "backend-info"@ {
            Command::BackendInfo
        } else if a == "doctor"@ {
            Command::Doctor
        } else if a == "sqlite-vec-info"@ {
            Command::SqliteVecInfo
        } else if planned_commands().contains(a) {
            Command::Planned
        } else {
            Command::Unknown
        },
    }
}

fn is_planned(v: &Vec<char>) -> (b: bool)
    ensures
        b == planned_commands().contains(v@),
{
    let mut i: usize = 0;
    while i < 8
        invariant
            i <= 8,
            forall|k: int| 0 <= k < i ==> planned_commands()[k] != v@,
        decreases 8 - i,
    {
        let name: &str = COMMANDS[i];
        proof {
            assert(COMMANDS@[i as int]@ == planned_commands()[i as int]) by {
                reveal_strlit("init");
                reveal_strlit("index");
                reveal_strlit("search");
                reveal_strlit("context");
                reveal_strlit("serve");
                reveal_strlit("backend-info");
                reveal_strlit("sqlite-vec-info");
                reveal_strlit("sync-turso");
            }
        }
        if eq_chars_str(v.as_slice(), name) {
            return true;
        }
        i = i + 1;
    }
    false
}

/// The command named by the first argument, `None` when there is none.
pub fn command_for(arg: Option<&str>) -> (c: Command)
    ensures
        c == command_spec(match arg {
            Some(a) => Some(a@),
            None => None,
        }),
{
    match arg {
        None => Command::Help,
        Some(a) => {
            let v = to_chars(a);
            let s = v.as_slice();
            if eq_chars_str(s, "-h") || eq_chars_str(s, "--help") {
                Command::Help
            } else if eq_chars_str(s, "init") {
                Command::Init
            } else if eq_chars_str(s, "index") {
                Command::Index
            } else if eq_chars_str(s, "sync-turso") {
                Command::SyncTurso
            } else if eq_chars_str(s, "search") {
                Command::Search
            } else if eq_chars_str(s, "get-note") {
                Command::GetNote
            } else if eq_chars_str(s, "related") {
                Command::Related
            } else if eq_chars_str(s, "embed") {
                Command::Embed
            } else if eq_chars_str(s, "vector-search") {
                Command::VectorSearch
            } else if eq_chars_str(s, "hybrid-search") {
                Command::HybridSearch
            } else if eq_chars_str(s, "context") {
                Command::Context
            } else if eq_chars_str(s, "serve") {
                Command::Serve
            } else if eq_chars_str(s, "backend-info") {
                Command::BackendInfo
            } else if eq_chars_str(s, "doctor") {
                Command::Doctor
            } else if eq_chars_str(s, "sqlite-vec-info") {
                Command::SqliteVecInfo
            } else if is_planned(&v) {
                Command::Planned
            } else {
                Command::Unknown
            }
        },
    }
}

// ---------------------------------------------------------------------------
// Unsigned integers as `str::parse` reads them
// ---------------------------------------------------------------------------
pub open spec fn is_digit(c: char) -> bool {
    '0' <= c && c <= '9'
}

pub open spec fn digit_value(c: char) -> nat {
    if is_digit(c) {
        ((c as u8) - ('0' as u8)) as nat
    } else {
        0
    }
}

/// The number written by the decimal digits `s`.
pub open spec fn digits_value(s: Seq<char>) -> nat
    decreases s.len(),
{
    if s.len() == 0 {
        0
    } else {
        digits_value(s.drop_last()) * 10 + digit_value(s.last())
    }
}

/// The digits of an unsigned number: the text after one optional `+`.
pub open spec fn unsigned_digits(s: Seq<char>) -> Seq<char> {
    if s.len() > 0 && s[0] == '+' {
        s.drop_first()
    } else {
        s
    }
}

/// `str::parse` of an unsigned integer no larger than `max`: an optional `+`,
/// then at least one ASCII digit and nothing else; too large a number is an
/// error as well.
pub open spec fn parse_uint_spec(s: Seq<char>, max: nat) -> Option<nat> {
    let d = unsigned_digits(s);
    if d.len() == 0 || !(forall|k: int| 0 <= k < d.len() ==> is_digit(#[trigger] d[k]))
        || digits_value(d) > max {
        None
    } else {
        Some(digits_value(d))
    }
}

proof fn lemma_digits_value_grows(s: Seq<char>, j: int)
    requires
        0 <= j <= s.len(),
    ensures
        digits_value(s.take(j)) <= digits_value(s),
    decreases s.len() - j,
{
    if j < s.len() {
        lemma_digits_value_grows(s, j + 1);
        assert(s.take(j + 1).drop_last() =~= s.take(j));
    } else {
        assert(s.take(j) =~= s);
    }
}

/// The number that `s` reads as, if it reads as one no larger than `max`.
pub fn parse_uint(s: &str, max: u64) -> (r: Option<u64>)
    ensures
        match r {
            Some(v) => parse_uint_spec(s@, max as nat) == Some(v as nat),
            None => parse_uint_spec(s@, max as nat) is None,
        },
{
    let v = to_chars(s);
    let start: usize = if v.len() > 0 && v[0] == '+' {
        1
    } else {
        0
    };
    let ghost d = unsigned_digits(s@);
    proof {
        assert(d =~= v@.subrange(start as int, v@.len() as int));
    }
    if start >= v.len() {
        return None;
    }
    let mut acc: u64 = 0;
    let mut i = start;
    while i < v.len()
        invariant
            v@ == s@,
            start <= i <= v@.len(),
            d == unsigned_digits(s@),
            d == v@.subrange(start as int, v@.len() as int),
            acc as nat == digits_value(d.take(i - start)),
            acc <= max,
            forall|k: int| 0 <= k < i - start ==> is_digit(#[trigger] d[k]),
        decreases v@.len() - i,
    {
        let c = v[i];
        if !('0' <= c && c <= '9') {
            proof {
                assert(d[i - start] == c);
                assert(!is_digit(d[i - start]));
                assert(!(forall|k: int| 0 <= k < d.len() ==> is_digit(#[trigger] d[k])));
                assert(parse_uint_spec(s@, max as nat) is None);
            }
            return None;
        }
        let digit = ((c as u8) - 48u8) as u64;
        proof {
            assert(d[i - start] == c);
            assert(d.take(i - start + 1).drop_last() =~= d.take(i - start));
            assert(d.take(i - start + 1).last() == c);
            assert(digit_value(c) == digit as nat);
            assert(digits_value(d.take(i - start + 1)) == acc * 10 + digit);
        }
        if digit > max || acc > (max - digit) / 10 {
            proof {
                if digit <= max {
                    assert(acc * 10 + digit > max) by (nonlinear_arith)
                        requires
                            acc > (max - digit) / 10,
                            digit <= max,
                    ;
                }
                lemma_digits_value_grows(d, i - start + 1);
                assert(digits_value(d) > max);
                assert(parse_uint_spec(s@, max as nat) is None);
            }
            return None;
        }
        proof {
            assert(acc * 10 + digit <= max) by (nonlinear_arith)
                requires
                    acc <= (max - digit) / 10,
                    digit <= max,
            ;
        }
        acc = acc * 10 + digit;
        i = i + 1;
    }
    proof {
        assert(d.take(i - start) =~= d);
    }
    Some(acc)
}

// ---------------------------------------------------------------------------
// Options
// ---------------------------------------------------------------------------
/// `str::trim_start_matches` with a non-empty pattern: every leading copy of
/// `p` is removed.
pub open spec fn strip_all_prefix(s: Seq<char>, p: Seq<char>) -> Seq<char>
    decreases s.len(),
{
    if p.len() > 0 && starts_with(s, p) {
        strip_all_prefix(s.skip(p.len() as int), p)
    } else {
        s
    }
}

fn strip_all_prefix_exec(v: &Vec<char>, p: &str) -> (r: String)
    requires
        p@.len() > 0,
    ensures
        r@ == strip_all_prefix(v@, p@),
{
    let pv = to_chars(p);
    let mut i: usize = 0;
    proof {
        assert(v@.skip(0) =~= v@);
    }
    loop
        invariant
            pv@ == p@,
            p@.len() > 0,
            i <= v@.len(),
            strip_all_prefix(v@, p@) == strip_all_prefix(v@.skip(i as int), p@),
        ensures
            i <= v@.len(),
            !match_at(v@, p@, i as int),
            strip_all_prefix(v@, p@) == strip_all_prefix(v@.skip(i as int), p@),
        decreases v@.len() - i,
    {
        if !crate::text::match_at_exec(v.as_slice(), pv.as_slice(), i) {
            break;
        }
        proof {
            assert(match_at(v@, pv@, i as int));
            assert(i + pv@.len() <= v@.len());
            assert(v@.len() == v.len());
            assert(pv@.len() == pv.len());
            let t = v@.skip(i as int);
            assert(t.subrange(0, p@.len() as int) =~= v@.subrange(i as int, i + p@.len()));
            assert(t.skip(p@.len() as int) =~= v@.skip(i + p@.len()));
        }
        i = i + pv.len();
    }
    proof {
        let t = v@.skip(i as int);
        if starts_with(t, p@) {
            assert(t.subrange(0, p@.len() as int) =~= v@.subrange(i as int, i + p@.len()));
        }
        assert(v@.subrange(i as int, v@.len() as int) =~= t);
    }
    crate::text::string_of(v.as_slice(), i, v.len())
}

/// The options of a command, as the spec sees them.
pub struct OptionsView {
    pub db: Option<Seq<char>>,
    pub limit: Option<u32>,
    pub query: Option<Seq<char>>,
    pub call: Option<Seq<char>>,
    pub mcp: bool,
    pub list_tools: bool,
    pub remote_sync: bool,
    pub force: bool,
    pub embedding_model: Option<Seq<char>>,
}

/// Options shared by the commands; unknown arguments are ignored.
#[derive(Debug, Clone, PartialEq, Eq, Default)]
pub struct CliOptions {
    pub db: Option<String>,
    pub limit: Option<u32>,
    pub query: Option<String>,
    pub call: Option<String>,
    pub mcp: bool,
    pub list_tools: bool,
    pub remote_sync: bool,
    pub force: bool,
    pub embedding_model: Option<String>,
}

pub open spec fn opt_str(o: Option<String>) -> Option<Seq<char>> {
    match o {
        Some(s) => Some(s@),
        None => None,
    }
}

impl View for CliOptions {
    type V = OptionsView;

    open spec fn view(&self) -> OptionsView {
        OptionsView {
            db: opt_str(self.db),
            limit: self.limit,
            query: opt_str(self.query),
            call: opt_str(self.call),
            mcp: self.mcp,
            list_tools: self.list_tools,
            remote_sync: self.remote_sync,
            force: self.force,
            embedding_model: opt_str(self.embedding_model),
        }
    }
}

pub open spec fn empty_options() -> OptionsView {
    OptionsView {
        db: None,
        limit: None,
        query: None,
        call: None,
        mcp: false,
        list_tools: false,
        remote_sync: false,
        force: false,
        embedding_model: None,
    }
}

/// A `u32` as `str::parse` reads it.
pub open spec fn parse_u32_spec(s: Seq<char>) -> Option<u32> {
    match parse_uint_spec(s, u32::MAX as nat) {
        Some(n) => Some(n as u32),
        None => None,
    }
}

/// The limit that `--limit` followed by `value` sets: none when the value is
/// missing or does not read as a `u32`.
pub open spec fn limit_of(value: Option<Seq<char>>) -> Option<u32> {
    match value {
        Some(v) => parse_u32_spec(v),
        None => None,
    }
}

/// Options that take their value from the next argument.
pub open spec fn takes_value(a: Seq<char>) -> bool {
    a == "--db"@ || a == "--limit"@ || a == "--query"@ || a == "--call"@ || a == "--model"@
}

/// What the argument `a`, followed by `next` where there is one, does to `o`.
pub open spec fn apply_arg(a: Seq<char>, next: Option<Seq<char>>, o: OptionsView) -> OptionsView {
    if a == "--db"@ {
        OptionsView { db: next, ..o }
    } else if a == "--limit"@ {
        OptionsView { limit: limit_of(next), ..o }
    } else if a == "--json"@ {
        o
    } else if a == "--mcp"@ {
        OptionsView { mcp: true, ..o }
    } else if a == "--list-tools"@ {
        OptionsView { list_tools: true, ..o }
    } else if a == "--remote-sync"@ {
        OptionsView { remote_sync: true, ..o }
    } else if a == "--force"@ {
        OptionsView { force: true, ..o }
    } else if a == "--query"@ {
        OptionsView { query: next, ..o }
    } else if a == "--call"@ {
        OptionsView { call: next, ..o }
    } else if a == "--model"@ {
        OptionsView { embedding_model: next, ..o }
    } else if starts_with(a, "--db="@) {
        OptionsView { db: Some(strip_all_prefix(a, "--db="@)), ..o }
    } else if starts_with(a, "--limit="@) {
        OptionsView { limit: parse_u32_spec(strip_all_prefix(a, "--limit="@)), ..o }
    } else if starts_with(a, "--query="@) {
        OptionsView { query: Some(strip_all_prefix(a, "--query="@)), ..o }
    } else if starts_with(a, "--call="@) {
        OptionsView { call: Some(strip_all_prefix(a, "--call="@)), ..o }
    } else if starts_with(a, "--model="@) {
        OptionsView { embedding_model: Some(strip_all_prefix(a, "--model="@)), ..o }
    } else {
        o
    }
}

/// The options read from `args[i..]` on top of `o`.
pub open spec fn parse_options_from(args: Seq<Seq<char>>, i: nat, o: OptionsView) -> OptionsView
    decreases args.len() - i,
{
    if i >= args.len() {
        o
    } else {
        let a = args[i as int];
        let next = if i + 1 < args.len() {
            Some(args[(i + 1) as int])
        } else {
            None
        };
        let j: nat = if takes_value(a) && i + 2 <= args.len() {
            i + 2
        } else {
            i + 1
        };
        parse_options_from(args, j, apply_arg(a, next, o))
    }
}

pub open spec fn parse_options_spec(args: Seq<Seq<char>>) -> OptionsView {
    parse_options_from(args, 0, empty_options())
}

fn parse_u32_value(s: &str) -> (r: Option<u32>)
    ensures
        r == parse_u32_spec(s@),
{
    match parse_uint(s, 4294967295u64) {
        Some(n) => Some(n as u32),
        None => None,
    }
}

fn takes_value_exec(s: &[char]) -> (b: bool)
    ensures
        b == takes_value(s@),
{
    eq_chars_str(s, "--db") || eq_chars_str(s, "--limit") || eq_chars_str(s, "--query")
        || eq_chars_str(s, "--call") || eq_chars_str(s, "--model")
}

fn str_starts_with(v: &Vec<char>, p: &str) -> (b: bool)
    ensures
        b == starts_with(v@, p@),
{
    let pv = to_chars(p);
    crate::text::starts_with_exec(v.as_slice(), pv.as_slice())
}

impl CliOptions {
    /// The options given by `args`, read left to right; a later option
    /// overrides an earlier one.
    pub fn parse(args: Vec<String>) -> (r: CliOptions)
        ensures
            r@ == parse_options_spec(string_views(args@)),
    {
        let ghost av = string_views(args@);
        let mut o = CliOptions {
            db: None,
            limit: None,
            query: None,
            call: None,
            mcp: false,
            list_tools: false,
            remote_sync: false,
            force: false,
            embedding_model: None,
        };
        let mut i: usize = 0;
        while i < args.len()
            invariant
                av == string_views(args@),
                av.len() == args@.len(),
                parse_options_spec(av) == parse_options_from(av, i as nat, o@),
            decreases args@.len() - i,
        {
            proof {
                reveal_strlit("--json");
                reveal_strlit("--db");
                reveal_strlit("--limit");
                reveal_strlit("--mcp");
                reveal_strlit("--list-tools");
                reveal_strlit("--remote-sync");
                reveal_strlit("--force");
                reveal_strlit("--query");
                reveal_strlit("--call");
                reveal_strlit("--model");
                reveal_strlit("--db=");
                reveal_strlit("--limit=");
                reveal_strlit("--query=");
                reveal_strlit("--call=");
                reveal_strlit("--model=");
            }
            let a = to_chars(args[i].as_str());
            let next: Option<String> = if i + 1 < args.len() {
                Some(args[i + 1].clone())
            } else {
                None
            };
            proof {
                assert(av[i as int] == a@);
                if i + 1 < args.len() {
                    assert(av[i + 1] == args@[i + 1]@);
                }
            }
            let s = a.as_slice();
            let ghost before = o@;
            let ghost nv = opt_str(next);
            let step: usize = if takes_value_exec(s) {
                2
            } else {
                1
            };
            if eq_chars_str(s, "--db") {
                o.db = next;
            } else if eq_chars_str(s, "--limit") {
                o.limit = match next {
                    Some(v) => parse_u32_value(v.as_str()),
                    None => None,
                };
            } else if eq_chars_str(s, "--json") {
            } else if eq_chars_str(s, "--mcp") {
                o.mcp = true;
            } else if eq_chars_str(s, "--list-tools") {
                o.list_tools = true;
            } else if eq_chars_str(s, "--remote-sync") {
                o.remote_sync = true;
            } else if eq_chars_str(s, "--force") {
                o.force = true;
            } else if eq_chars_str(s, "--query") {
                o.query = next;
            } else if eq_chars_str(s, "--call") {
                o.call = next;
            } else if eq_chars_str(s, "--model") {
                o.embedding_model = next;
            } else if str_starts_with(&a, "--db=") {
                o.db = Some(strip_all_prefix_exec(&a, "--db="));
            } else if str_starts_with(&a, "--limit=") {
                let value = strip_all_prefix_exec(&a, "--limit=");
                o.limit = parse_u32_value(value.as_str());
            } else if str_starts_with(&a, "--query=") {
                o.query = Some(strip_all_prefix_exec(&a, "--query="));
            } else if str_starts_with(&a, "--call=") {
                o.call = Some(strip_all_prefix_exec(&a, "--call="));
            } else if str_starts_with(&a, "--model=") {
                o.embedding_model = Some(strip_all_prefix_exec(&a, "--model="));
            }
            proof {
                assert(o@ == apply_arg(av[i as int], nv, before));
                assert(step == (if takes_value(av[i as int]) {
                    2nat
                } else {
                    1nat
                }));
            }
            if step == 2 && i + 1 >= args.len() {
                i = args.len();
            } else {
                i = i + step;
            }
        }
        o
    }
}

// ---------------------------------------------------------------------------
// Positional arguments, state directory, database path
// ---------------------------------------------------------------------------
/// The first argument as the query (empty when there is none) and the
/// arguments after it.
pub open spec fn split_query_spec(args: Seq<Seq<char>>) -> (Seq<char>, Seq<Seq<char>>) {
    if args.len() == 0 {
        (Seq::empty(), Seq::empty())
    } else {
        (args[0], args.drop_first())
    }
}

pub fn split_query(args: Vec<String>) -> (r: (String, Vec<String>))
    ensures
        (r.0@, string_views(r.1@)) == split_query_spec(string_views(args@)),
{
    let mut rest = args;
    if rest.len() == 0 {
        proof {
            assert(string_views(rest@) =~= Seq::<Seq<char>>::empty());
        }
        return (String::new(), rest);
    }
    let ghost before = rest@;
    let query = rest.remove(0);
    proof {
        assert(string_views(rest@) =~= string_views(before).drop_first());
        assert(query@ == string_views(before)[0]);
    }
    (query, rest)
}

/// The state directory that `args[i..]` name: the value after the first
/// `--state-dir` (none when it is the last argument), or the text after the
/// first `--state-dir=`, whichever comes first.
pub open spec fn state_dir_from(args: Seq<Seq<char>>, i: nat) -> Option<Seq<char>>
    decreases args.len() - i,
{
    if i >= args.len() {
        None
    } else if args[i as int] == "--state-dir"@ {
        if i + 1 < args.len() {
            Some(args[(i + 1) as int])
        } else {
            None
        }
    } else if starts_with(args[i as int], "--state-dir="@) {
        Some(args[i as int].skip("--state-dir="@.len() as int))
    } else {
        state_dir_from(args, i + 1)
    }
}

pub fn state_dir_from_args(args: Vec<String>) -> (r: Option<String>)
    ensures
        opt_str(r) == state_dir_from(string_views(args@), 0),
{
    let ghost av = string_views(args@);
    let mut i: usize = 0;
    proof {
        reveal_strlit("--state-dir=");
    }
    while i < args.len()
        invariant
            av == string_views(args@),
            av.len() == args@.len(),
            i <= args@.len(),
            state_dir_from(av, 0) == state_dir_from(av, i as nat),
            "--state-dir="@.len() == 12,
        decreases args@.len() - i,
    {
        let a = to_chars(args[i].as_str());
        proof {
            assert(av[i as int] == a@);
        }
        if eq_chars_str(a.as_slice(), "--state-dir") {
            if i + 1 < args.len() {
                proof {
                    assert(av[i + 1] == args@[i + 1]@);
                }
                return Some(args[i + 1].clone());
            }
            return None;
        }
        if str_starts_with(&a, "--state-dir=") {
            let value = crate::text::string_of(a.as_slice(), 12, a.len());
            proof {
                assert(a@.skip(12) =~= a@.subrange(12, a@.len() as int));
            }
            return Some(value);
        }
        i = i + 1;
    }
    None
}

pub open spec fn missing_db_message() -> Seq<char> {
    "--db <PATH> is required for retrieval commands until config files are implemented"@
}

/// The database that a retrieval command reads: the `--db` option, which it
/// cannot do without.
pub fn require_db(options: &CliOptions) -> (r: Result<String, String>)
    ensures
        match r {
            Ok(db) => options@.db == Some(db@),
            Err(e) => options@.db is None && e@ == missing_db_message(),
        },
{
    match &options.db {
        Some(db) => Ok(db.clone()),
        None => Err(crate::text::copy_string(
            "--db <PATH> is required for retrieval commands until config files are implemented",
        )),
    }
}

/// `Path::extension` of a file name: the text after its last `.`, unless the
/// name has no dot, begins with its only dot, or is `..`.
pub open spec fn extension_of(name: Seq<char>) -> Option<Seq<char>> {
    let k = crate::note::last_index_of(name, '.', name.len() as int);
    if name == seq!['.', '.'] || k <= 0 {
        None
    } else {
        Some(name.subrange(k + 1, name.len() as int))
    }
}

/// The database at `db` is a DuckDB file: its file name has the extension
/// `duckdb`.
pub open spec fn is_duckdb_path_spec(db: Seq<char>) -> bool {
    let cs = crate::paths::path_components(db);
    cs.len() > 0 && crate::note::normal_component(cs.last()) && extension_of(cs.last()) == Some(
        "duckdb"@,
    )
}

pub fn is_duckdb_path(db: &str) -> (b: bool)
    ensures
        b == is_duckdb_path_spec(db@),
{
    let v = to_chars(db);
    let cs = crate::paths::components_exec(v.as_slice());
    if cs.len() == 0 {
        return false;
    }
    let last = &cs[cs.len() - 1];
    proof {
        assert(crate::text::views(cs@).last() == last@);
    }
    let ls = last.as_slice();
    if eq_chars_str(ls, "/") || eq_chars_str(ls, ".") || eq_chars_str(ls, "..") {
        proof {
            reveal_strlit("/");
            reveal_strlit(".");
            reveal_strlit("..");
            assert("/"@ =~= seq!['/']);
            assert("."@ =~= seq!['.']);
            assert(".."@ =~= seq!['.', '.']);
        }
        return false;
    }
    proof {
        reveal_strlit("/");
        reveal_strlit(".");
        reveal_strlit("..");
        assert("/"@ =~= seq!['/']);
        assert("."@ =~= seq!['.']);
        assert(".."@ =~= seq!['.', '.']);
    }
    let k = crate::note::last_index_end(last, '.');
    proof {
        crate::note::lemma_last_index_of(last@, '.', last@.len() as int);
    }
    if k <= 1 {
        return false;
    }
    let ext = crate::text::string_of(ls, k, last.len());
    let ev = to_chars(ext.as_str());
    eq_chars_str(ev.as_slice(), "duckdb")
}

// ---------------------------------------------------------------------------
// JSON strings for command output
// ---------------------------------------------------------------------------
/// How command output writes one character inside a JSON string: only the
/// backslash, the double quote and the newline are escaped.
pub open spec fn output_json_piece(c: char) -> Seq<char> {
    if c == '\\' {
        seq!['\\', '\\']
    } else if c == '"' {
        seq!['\\', '"']
    } else if c == '\n' {
        seq!['\\', 'n']
    } else {
        seq![c]
    }
}

pub open spec fn output_json_body(s: Seq<char>) -> Seq<char>
    decreases s.len(),
{
    if s.len() == 0 {
        seq![]
    } else {
        output_json_body(s.drop_last()) + output_json_piece(s.last())
    }
}

pub open spec fn output_json_string_spec(s: Seq<char>) -> Seq<char> {
    seq!['"'] + output_json_body(s) + seq!['"']
}

/// The JSON string for `value` as command output writes it.
pub fn json_string(value: &str) -> (r: String)
    ensures
        r@ == output_json_string_spec(value@),
{
    let v = to_chars(value);
    let mut out = String::new();
    push_char(&mut out, '"');
    let mut i: usize = 0;
    while i < v.len()
        invariant
            i <= v@.len(),
            v@ == value@,
            out@ == seq!['"'] + output_json_body(v@.take(i as int)),
        decreases v@.len() - i,
    {
        let c = v[i];
        if c == '\\' {
            push_char(&mut out, '\\');
            push_char(&mut out, '\\');
        } else if c == '"' {
            push_char(&mut out, '\\');
            push_char(&mut out, '"');
        } else if c == '\n' {
            push_char(&mut out, '\\');
            push_char(&mut out, 'n');
        } else {
            push_char(&mut out, c);
        }
        proof {
            assert(v@.take(i + 1).drop_last() =~= v@.take(i as int));
            assert(out@ =~= seq!['"'] + output_json_body(v@.take(i + 1)));
        }
        i = i + 1;
    }
    push_char(&mut out, '"');
    proof {
        assert(v@.take(v@.len() as int) =~= v@);
        assert(out@ =~= output_json_string_spec(value@));
    }
    out
}

// ---------------------------------------------------------------------------
// Full-text queries
// ---------------------------------------------------------------------------
/// A search word stripped of everything but alphanumerics, `_` and `-` at
/// both ends.
pub open spec fn fts_term(word: Seq<char>) -> Seq<char> {
    trim_set(word, CharSet::NotTermChar)
}

/// Each `"` doubled, as an FTS5 string wants it.
pub open spec fn double_quotes(t: Seq<char>) -> Seq<char>
    decreases t.len(),
{
    if t.len() == 0 {
        seq![]
    } else {
        double_quotes(t.drop_last()) + if t.last() == '"' {
            seq!['"', '"']
        } else {
            seq![t.last()]
        }
    }
}

pub open spec fn quote_term(t: Seq<char>) -> Seq<char> {
    seq!['"'] + double_quotes(t) + seq!['"']
}

/// How FTS5 reads the inside of a quoted string: `""` stands for one `"`.
pub open spec fn fts_string_read(s: Seq<char>) -> Seq<char>
    decreases s.len(),
{
    if s.len() == 0 {
        seq![]
    } else if s.len() >= 2 && s[0] == '"' && s[1] == '"' {
        seq!['"'] + fts_string_read(s.skip(2))
    } else {
        seq![s[0]] + fts_string_read(s.skip(1))
    }
}

proof fn lemma_double_quotes_concat(a: Seq<char>, b: Seq<char>)
    ensures
        double_quotes(a + b) == double_quotes(a) + double_quotes(b),
    decreases b.len(),
{
    if b.len() == 0 {
        assert(a + b =~= a);
        assert(double_quotes(b) =~= Seq::<char>::empty());
        assert(double_quotes(a) + double_quotes(b) =~= double_quotes(a));
    } else {
        lemma_double_quotes_concat(a, b.drop_last());
        assert((a + b).drop_last() =~= a + b.drop_last());
        assert((a + b).last() == b.last());
    }
}

/// A search term cannot break out of its FTS5 string: reading the doubled
/// term back gives the term itself, whatever quotes it holds.
pub proof fn lemma_fts_term_round_trip(t: Seq<char>)
    ensures
        fts_string_read(double_quotes(t)) == t,
    decreases t.len(),
{
    if t.len() > 0 {
        let head = seq![t[0]];
        let rest = t.drop_first();
        assert(t =~= head + rest);
        lemma_double_quotes_concat(head, rest);
        assert(head.drop_last() =~= Seq::<char>::empty());
        assert(double_quotes(Seq::<char>::empty()) =~= Seq::<char>::empty());
        lemma_fts_term_round_trip(rest);
        let d = double_quotes(t);
        if t[0] == '"' {
            assert(double_quotes(head) =~= seq!['"', '"']);
            assert(d.skip(2) =~= double_quotes(rest));
        } else {
            assert(double_quotes(head) =~= seq![t[0]]);
            assert(d.skip(1) =~= double_quotes(rest));
        }
        assert(fts_string_read(d) =~= t);
    }
}

/// The quoted terms of the words, leaving out words with nothing left.
pub open spec fn fts_terms(ws: Seq<Seq<char>>) -> Seq<Seq<char>>
    decreases ws.len(),
{
    if ws.len() == 0 {
        seq![]
    } else {
        let acc = fts_terms(ws.drop_last());
        let t = fts_term(ws.last());
        if t.len() > 0 {
            acc.push(quote_term(t))
        } else {
            acc
        }
    }
}

/// The FTS5 query for a search: every word of the query, stripped and
/// quoted, joined with `AND`.
pub open spec fn fts_query_spec(query: Seq<char>) -> Seq<char> {
    join_with(fts_terms(words(query)), " AND "@)
}

fn push_quoted_term(out: &mut String, w: &Vec<char>, a: usize, b: usize)
    requires
        a <= b <= w@.len(),
    ensures
        final(out)@ == old(out)@ + quote_term(w@.subrange(a as int, b as int)),
{
    let ghost t = w@.subrange(a as int, b as int);
    let ghost start = old(out)@;
    push_char(out, '"');
    let mut k = a;
    while k < b
        invariant
            a <= k <= b <= w@.len(),
            t == w@.subrange(a as int, b as int),
            out@ == start + seq!['"'] + double_quotes(w@.subrange(a as int, k as int)),
        decreases b - k,
    {
        let c = w[k];
        if c == '"' {
            push_char(out, '"');
            push_char(out, '"');
        } else {
            push_char(out, c);
        }
        proof {
            assert(w@.subrange(a as int, k + 1).drop_last() =~= w@.subrange(a as int, k as int));
            assert(out@ =~= start + seq!['"'] + double_quotes(w@.subrange(a as int, k + 1)));
        }
        k = k + 1;
    }
    push_char(out, '"');
    proof {
        assert(out@ =~= start + quote_term(t));
    }
}

/// The FTS5 query for the search text `query`; empty when no word has a
/// term in it.
pub fn sqlite_fts_query(query: &str) -> (r: String)
    ensures
        r@ == fts_query_spec(query@),
{
    let q = to_chars(query);
    let ws = crate::note::split_words(&q);
    let ghost wv = crate::text::views(ws@);
    let ghost mut terms: Seq<Seq<char>> = seq![];
    let mut n_terms: usize = 0;
    let mut out = String::new();
    let mut i: usize = 0;
    proof {
        assert(wv.take(0) =~= Seq::<Seq<char>>::empty());
    }
    while i < ws.len()
        invariant
            wv == crate::text::views(ws@),
            wv == words(query@),
            wv.len() == ws@.len(),
            i <= ws@.len(),
            terms == fts_terms(wv.take(i as int)),
            n_terms == terms.len(),
            n_terms <= i,
            out@ == join_with(terms, " AND "@),
        decreases ws@.len() - i,
    {
        let w = &ws[i];
        let (a, b) = crate::text::trim_bounds(w.as_slice(), 0, w.len(), CharSet::NotTermChar);
        proof {
            assert(wv[i as int] == w@);
            assert(w@.subrange(0, w@.len() as int) =~= w@);
            assert(wv.take(i + 1).drop_last() =~= wv.take(i as int));
            assert(wv.take(i + 1).last() == w@);
        }
        if a < b {
            let ghost before = out@;
            if n_terms > 0 {
                push_str(&mut out, " AND ");
            }
            push_quoted_term(&mut out, w, a, b);
            proof {
                let x = quote_term(fts_term(w@));
                let terms2 = terms.push(x);
                assert(terms2.drop_last() =~= terms);
                if terms.len() == 0 {
                    assert(out@ =~= join_with(terms2, " AND "@));
                } else {
                    assert(out@ =~= join_with(terms2, " AND "@));
                }
                terms = terms2;
            }
            n_terms = n_terms + 1;
        }
        i = i + 1;
    }
    proof {
        assert(wv.take(ws@.len() as int) =~= wv);
    }
    out
}

// ---------------------------------------------------------------------------
// Retrieval queries
// ---------------------------------------------------------------------------
/// What the substring queries read from, after their `SELECT` clause.
pub const LIKE_SOURCE: &'static str = "sections s JOIN notes n ON n.id = s.note_id WHERE s.text LIKE ";

pub const OR_PATH_LIKE: &'static str = " OR n.path LIKE ";

pub const OR_HEADING_LIKE: &'static str = " OR s.heading_path LIKE ";

pub const RELEVANCE_ORDER_LIMIT: &'static str = " ORDER BY s.human_relevance_score DESC, n.modified_unix DESC LIMIT ";

pub const EMPTY_FTS_SEARCH: &'static str = "SELECT s.id AS chunk_id, n.path, s.heading_path, substr(s.text, 1, 240) AS excerpt, CAST(0.0 AS DOUBLE) AS score, s.content_hash, n.modified_unix, s.human_relevance_score FROM sections s JOIN notes n ON n.id = s.note_id WHERE 0 LIMIT 0;";

pub const FTS_SEARCH_HEAD: &'static str = "SELECT s.id AS chunk_id, n.path, s.heading_path, substr(s.text, 1, ";

pub const FTS_SEARCH_BODY: &'static str = ") AS excerpt, bm25(sections_fts) * -1.0 AS score, s.content_hash, n.modified_unix, s.human_relevance_score FROM sections_fts JOIN sections s ON s.id = sections_fts.id JOIN notes n ON n.id = s.note_id WHERE sections_fts MATCH ";

pub const FTS_SEARCH_ORDER_LIMIT: &'static str = " ORDER BY score DESC, s.human_relevance_score DESC, n.modified_unix DESC LIMIT ";

/// What the note query reads from, after its `SELECT` clause.
pub const GET_NOTE_SOURCE: &'static str = "notes n LEFT JOIN sections s ON s.note_id = n.id WHERE n.id = ";

pub const GET_NOTE_OR_PATH: &'static str = " OR n.path = ";

pub const GET_NOTE_OR_PATH_LIKE: &'static str = " OR n.path LIKE ";

pub const GET_NOTE_TAIL: &'static str = " GROUP BY n.id ORDER BY n.path LIMIT 1;";

pub const RELATED_HEAD: &'static str = "WITH base AS (SELECT id, path FROM notes WHERE id = ";

pub const RELATED_OR_PATH: &'static str = " OR path = ";

pub const RELATED_OR_PATH_LIKE: &'static str = " OR path LIKE ";

pub const RELATED_LINKS: &'static str = " LIMIT 1), outgoing AS (SELECT l.target AS relation, l.raw AS evidence FROM links l JOIN base b ON b.id = l.source_note_id), incoming AS (SELECT n.path AS relation, l.raw AS evidence FROM links l JOIN notes n ON n.id = l.source_note_id JOIN base b ON l.target = replace(b.path, '.md', '')) ";

pub const RELATED_UNION: &'static str = "outgoing UNION ALL SELECT 'incoming' AS kind, relation, evidence FROM incoming LIMIT 25;";

/// The `LIKE` pattern that matches `q` anywhere.
pub open spec fn like_of(q: Seq<char>) -> Seq<char> {
    seq!['%'] + q + seq!['%']
}

/// Chunks whose text, note path or heading contains `query`, most relevant
/// and most recent first.
pub open spec fn like_search_sql_spec(query: Seq<char>, limit: nat) -> Seq<char> {
    let l = sql_literal_spec(like_of(query));
    select_clause(QueryShape::Search) + LIKE_SOURCE@ + l + OR_PATH_LIKE@ + l + OR_HEADING_LIKE@ + l + RELEVANCE_ORDER_LIMIT@
        + decimal(limit) + seq![';']
}

/// Context chunks whose text, note path or heading contains `query`.
pub open spec fn like_context_sql_spec(query: Seq<char>, limit: nat) -> Seq<char> {
    let l = sql_literal_spec(like_of(query));
    select_clause(QueryShape::Context) + LIKE_SOURCE@ + l + OR_PATH_LIKE@ + l + OR_HEADING_LIKE@ + l + " LIMIT "@ + decimal(limit)
        + seq![';']
}

/// Full-text search of the chunks by BM25 score, with excerpts of
/// `excerpt_len` characters; a query that matches nothing when the search
/// text has no term.
pub open spec fn fts_search_sql_spec(query: Seq<char>, limit: nat, excerpt_len: nat) -> Seq<char> {
    let fts = fts_query_spec(query);
    if fts.len() == 0 {
        EMPTY_FTS_SEARCH@
    } else {
        FTS_SEARCH_HEAD@ + decimal(excerpt_len) + FTS_SEARCH_BODY@ + sql_literal_spec(fts)
            + FTS_SEARCH_ORDER_LIMIT@ + decimal(limit) + seq![';']
    }
}

/// The note whose id or path is `needle`, or whose path contains it, with up
/// to 4000 characters of its sections.
pub open spec fn get_note_sql_spec(needle: Seq<char>) -> Seq<char> {
    select_clause(QueryShape::Note) + GET_NOTE_SOURCE@ + sql_literal_spec(needle) + GET_NOTE_OR_PATH@ + sql_literal_spec(needle)
        + GET_NOTE_OR_PATH_LIKE@ + sql_literal_spec(like_of(needle)) + GET_NOTE_TAIL@
}

/// The links out of the note named by `needle` and the links into it.
pub open spec fn related_sql_spec(needle: Seq<char>) -> Seq<char> {
    RELATED_HEAD@ + sql_literal_spec(needle) + RELATED_OR_PATH@ + sql_literal_spec(needle)
        + RELATED_OR_PATH_LIKE@ + sql_literal_spec(like_of(needle)) + RELATED_LINKS@ + select_clause(
        QueryShape::Related,
    ) + RELATED_UNION@
}

fn push_sql_literal(out: &mut String, v: &str)
    ensures
        final(out)@ == old(out)@ + sql_literal_spec(v@),
{
    let l = sql_literal(v);
    push_str(out, l.as_str());
}

fn like_pattern(q: &str) -> (r: String)
    ensures
        r@ == like_of(q@),
{
    let mut r = String::new();
    push_char(&mut r, '%');
    push_str(&mut r, q);
    push_char(&mut r, '%');
    proof {
        assert(r@ =~= like_of(q@));
    }
    r
}

fn like_sql(shape: QueryShape, query: &str, middle: &str, limit: u32) -> (r: String)
    ensures
        r@ == select_clause(shape) + LIKE_SOURCE@ + sql_literal_spec(like_of(query@)) + OR_PATH_LIKE@
            + sql_literal_spec(like_of(query@)) + OR_HEADING_LIKE@ + sql_literal_spec(
            like_of(query@),
        ) + middle@ + decimal(limit as nat) + seq![';'],
{
    let like = like_pattern(query);
    let mut out = String::new();
    push_select_clause(&mut out, shape);
    push_str(&mut out, LIKE_SOURCE);
    push_sql_literal(&mut out, like.as_str());
    push_str(&mut out, OR_PATH_LIKE);
    push_sql_literal(&mut out, like.as_str());
    push_str(&mut out, OR_HEADING_LIKE);
    push_sql_literal(&mut out, like.as_str());
    push_str(&mut out, middle);
    push_decimal(&mut out, limit as u64);
    push_char(&mut out, ';');
    proof {
        assert(out@ =~= select_clause(shape) + LIKE_SOURCE@ + sql_literal_spec(like_of(query@))
            + OR_PATH_LIKE@ + sql_literal_spec(like_of(query@)) + OR_HEADING_LIKE@
            + sql_literal_spec(like_of(query@)) + middle@ + decimal(limit as nat) + seq![';']);
    }
    out
}

/// The substring search that DuckDB databases and the MCP search tool use.
pub fn like_search_sql(query: &str, limit: u32) -> (r: String)
    ensures
        r@ == like_search_sql_spec(query@, limit as nat),
{
    let r = like_sql(QueryShape::Search, query, RELEVANCE_ORDER_LIMIT, limit);
    proof {
        assert(r@ =~= like_search_sql_spec(query@, limit as nat));
    }
    r
}

/// The substring context query that DuckDB databases use.
pub fn like_context_sql(query: &str, limit: u32) -> (r: String)
    ensures
        r@ == like_context_sql_spec(query@, limit as nat),
{
    let r = like_sql(QueryShape::Context, query, " LIMIT ", limit);
    proof {
        assert(r@ =~= like_context_sql_spec(query@, limit as nat));
    }
    r
}

/// The full-text search query over `sections_fts` for `query`.
pub fn sqlite_fts_search_sql(query: &str, limit: u32, excerpt_len: usize) -> (r: String)
    ensures
        r@ == fts_search_sql_spec(query@, limit as nat, excerpt_len as nat),
{
    let fts = sqlite_fts_query(query);
    if fts.as_str().is_empty() {
        proof {
            assert(fts@.len() == 0);
        }
        return crate::text::copy_string(EMPTY_FTS_SEARCH);
    }
    let mut out = crate::text::copy_string(FTS_SEARCH_HEAD);
    push_decimal(&mut out, excerpt_len as u64);
    push_str(&mut out, FTS_SEARCH_BODY);
    push_sql_literal(&mut out, fts.as_str());
    push_str(&mut out, FTS_SEARCH_ORDER_LIMIT);
    push_decimal(&mut out, limit as u64);
    push_char(&mut out, ';');
    proof {
        assert(out@ =~= fts_search_sql_spec(query@, limit as nat, excerpt_len as nat));
    }
    out
}

/// The `search` command's query: substring search on a DuckDB file, full-text
/// search otherwise; ten results unless a limit is given.
pub open spec fn search_sql_spec(query: Seq<char>, limit: Option<u32>, db: Seq<char>) -> Seq<char> {
    let n: nat = match limit {
        Some(l) => l as nat,
        None => 10,
    };
    if is_duckdb_path_spec(db) {
        like_search_sql_spec(query, n)
    } else {
        fts_search_sql_spec(query, n, 240)
    }
}

pub fn search_sql(query: &str, limit: Option<u32>, db: &str) -> (r: String)
    ensures
        r@ == search_sql_spec(query@, limit, db@),
{
    let n: u32 = match limit {
        Some(l) => l,
        None => 10,
    };
    if is_duckdb_path(db) {
        like_search_sql(query, n)
    } else {
        sqlite_fts_search_sql(query, n, 240)
    }
}

/// The `context` command's query: eight chunks with 700-character excerpts
/// unless a limit is given.
pub open spec fn context_sql_spec(query: Seq<char>, limit: Option<u32>, db: Seq<char>) -> Seq<
    char,
> {
    let n: nat = match limit {
        Some(l) => l as nat,
        None => 8,
    };
    if is_duckdb_path_spec(db) {
        like_context_sql_spec(query, n)
    } else {
        fts_search_sql_spec(query, n, 700)
    }
}

pub fn context_sql(query: &str, limit: Option<u32>, db: &str) -> (r: String)
    ensures
        r@ == context_sql_spec(query@, limit, db@),
{
    let n: u32 = match limit {
        Some(l) => l,
        None => 8,
    };
    if is_duckdb_path(db) {
        like_context_sql(query, n)
    } else {
        sqlite_fts_search_sql(query, n, 700)
    }
}

/// The tab-separated reader splits rows at line breaks and cells at tabs, so
/// the text columns of the vector queries come with both turned into spaces.
pub const EMBEDDING_ROWS_HEAD: &'static str = "SELECT e.chunk_id, replace(replace(n.path, char(10), ' '), char(9), ' '), replace(replace(s.heading_path, char(10), ' '), char(9), ' '), substr(replace(replace(s.text, char(10), ' '), char(9), ' '), 1, 240), s.content_hash, n.modified_unix, s.human_relevance_score, e.embedding_json, replace(replace(s.text, char(10), ' '), char(9), ' ') FROM embeddings e JOIN sections s ON s.id = e.chunk_id JOIN notes n ON n.id = s.note_id WHERE e.model = ";

pub const HYBRID_HEAD: &'static str = "SELECT s.id, replace(replace(n.path, char(10), ' '), char(9), ' '), replace(replace(s.heading_path, char(10), ' '), char(9), ' '), substr(replace(replace(s.text, char(10), ' '), char(9), ' '), 1, 240), s.content_hash, n.modified_unix, s.human_relevance_score, e.embedding_json, replace(replace(s.text, char(10), ' '), char(9), ' '), bm25(sections_fts) * -1.0 AS fts_score FROM sections_fts JOIN sections s ON s.id = sections_fts.id JOIN notes n ON n.id = s.note_id LEFT JOIN embeddings e ON e.chunk_id = s.id AND e.model = ";

pub const HYBRID_MATCH: &'static str = " WHERE sections_fts MATCH ";

pub const HYBRID_ORDER_LIMIT: &'static str = " ORDER BY fts_score DESC LIMIT ";

/// The texts to embed: every section's id and text on one line.
pub const SECTION_TEXTS_SQL: &'static str = "SELECT id, replace(replace(text, char(10), ' '), char(9), ' ') FROM sections ORDER BY id;";

/// The number of notes an index holds.
pub const NOTE_COUNT_SQL: &'static str = "SELECT count(*) FROM notes";

/// The stored embeddings of `model` with the chunks they belong to.
pub open spec fn embedding_rows_sql_spec(model: Seq<char>) -> Seq<char> {
    EMBEDDING_ROWS_HEAD@ + sql_literal_spec(model) + seq![';']
}

pub fn embedding_rows_sql(model: &str) -> (r: String)
    ensures
        r@ == embedding_rows_sql_spec(model@),
{
    let mut out = crate::text::copy_string(EMBEDDING_ROWS_HEAD);
    push_sql_literal(&mut out, model);
    push_char(&mut out, ';');
    proof {
        assert(out@ =~= embedding_rows_sql_spec(model@));
    }
    out
}

/// How many full-text candidates a hybrid search reranks for `limit`
/// results: twelve per result, at least 25.
pub open spec fn candidate_count(limit: nat) -> nat {
    if limit * 12 > 25 {
        limit * 12
    } else {
        25
    }
}

/// The full-text candidates of a hybrid search, with their embeddings of
/// `model` where there are any; none when the query has no term.
pub open spec fn hybrid_candidates_sql_spec(model: Seq<char>, query: Seq<char>, limit: nat) -> Option<
    Seq<char>,
> {
    let fts = fts_query_spec(query);
    if fts.len() == 0 {
        None
    } else {
        Some(
            HYBRID_HEAD@ + sql_literal_spec(model) + HYBRID_MATCH@ + sql_literal_spec(fts)
                + HYBRID_ORDER_LIMIT@ + decimal(candidate_count(limit)) + seq![';'],
        )
    }
}

pub fn hybrid_candidates_sql(model: &str, query: &str, limit: u32) -> (r: Option<String>)
    ensures
        match r {
            Some(sql) => hybrid_candidates_sql_spec(model@, query@, limit as nat) == Some(sql@),
            None => hybrid_candidates_sql_spec(model@, query@, limit as nat) is None,
        },
{
    let fts = sqlite_fts_query(query);
    if fts.as_str().is_empty() {
        proof {
            assert(fts@.len() == 0);
        }
        return None;
    }
    let wide = (limit as u64) * 12;
    let candidates: u64 = if wide > 25 {
        wide
    } else {
        25
    };
    let mut out = crate::text::copy_string(HYBRID_HEAD);
    push_sql_literal(&mut out, model);
    push_str(&mut out, HYBRID_MATCH);
    push_sql_literal(&mut out, fts.as_str());
    push_str(&mut out, HYBRID_ORDER_LIMIT);
    push_decimal(&mut out, candidates);
    push_char(&mut out, ';');
    proof {
        assert(candidates as nat == candidate_count(limit as nat));
        assert(out@ =~= HYBRID_HEAD@ + sql_literal_spec(model@) + HYBRID_MATCH@ + sql_literal_spec(
            fts@,
        ) + HYBRID_ORDER_LIMIT@ + decimal(candidate_count(limit as nat)) + seq![';']);
    }
    Some(out)
}

/// The `get-note` command's query for `needle`.
pub fn get_note_sql(needle: &str) -> (r: String)
    ensures
        r@ == get_note_sql_spec(needle@),
{
    let like = like_pattern(needle);
    let mut out = String::new();
    push_select_clause(&mut out, QueryShape::Note);
    push_str(&mut out, GET_NOTE_SOURCE);
    push_sql_literal(&mut out, needle);
    push_str(&mut out, GET_NOTE_OR_PATH);
    push_sql_literal(&mut out, needle);
    push_str(&mut out, GET_NOTE_OR_PATH_LIKE);
    push_sql_literal(&mut out, like.as_str());
    push_str(&mut out, GET_NOTE_TAIL);
    proof {
        assert(out@ =~= get_note_sql_spec(needle@));
    }
    out
}

/// The `related` command's query for `needle`.
pub fn related_sql(needle: &str) -> (r: String)
    ensures
        r@ == related_sql_spec(needle@),
{
    let like = like_pattern(needle);
    let mut out = crate::text::copy_string(RELATED_HEAD);
    push_sql_literal(&mut out, needle);
    push_str(&mut out, RELATED_OR_PATH);
    push_sql_literal(&mut out, needle);
    push_str(&mut out, RELATED_OR_PATH_LIKE);
    push_sql_literal(&mut out, like.as_str());
    push_str(&mut out, RELATED_LINKS);
    push_select_clause(&mut out, QueryShape::Related);
    push_str(&mut out, RELATED_UNION);
    proof {
        assert(out@ =~= related_sql_spec(needle@));
    }
    out
}

// ---------------------------------------------------------------------------
// Column names of DuckDB results
// ---------------------------------------------------------------------------
/// Which retrieval query a result comes from; each has its own columns.
#[derive(Debug, Clone, Copy, PartialEq, Eq, Structural)]
pub enum QueryShape {
    /// The substring search (`search`, MCP `vault_search`).
    Search,
    /// The substring context pack (`context`).
    Context,
    /// One bounded note (`get-note`, MCP `vault_get_note`).
    Note,
    /// Outgoing and incoming links (`related`, MCP `vault_related`).
    Related,
}

pub open spec fn note_columns() -> Seq<Seq<char>> {
    seq![
        "id"@,
        "path"@,
        "title"@,
        "modified_unix"@,
        "content_hash"@,
        "human_relevance_score"@,
        "bounded_content"@,
    ]
}

pub open spec fn relation_columns() -> Seq<Seq<char>> {
    seq!["kind"@, "relation"@, "evidence"@]
}

pub open spec fn search_columns() -> Seq<Seq<char>> {
    seq![
        "chunk_id"@,
        "path"@,
        "heading_path"@,
        "excerpt"@,
        "score"@,
        "content_hash"@,
        "modified_unix"@,
        "human_relevance_score"@,
    ]
}

pub open spec fn context_columns() -> Seq<Seq<char>> {
    seq![
        "chunk_id"@,
        "path"@,
        "heading_path"@,
        "excerpt"@,
        "content_hash"@,
        "modified_unix"@,
        "human_relevance_score"@,
    ]
}

/// The names of the columns, in order, that the query of each shape selects
/// (see `select_items`). The shape comes from the command that built the
/// query, never from the query's text.
pub open spec fn column_names_spec(shape: QueryShape) -> Seq<Seq<char>> {
    match shape {
        QueryShape::Search => search_columns(),
        QueryShape::Context => context_columns(),
        QueryShape::Note => note_columns(),
        QueryShape::Related => relation_columns(),
    }
}

fn strings_of(names: &[&str]) -> (r: Vec<String>)
    ensures
        string_views(r@) == Seq::new(names@.len(), |i: int| names@[i]@),
{
    let mut r: Vec<String> = Vec::new();
    let mut i: usize = 0;
    while i < names.len()
        invariant
            i <= names@.len(),
            r@.len() == i,
            string_views(r@) == Seq::new(i as nat, |k: int| names@[k]@),
        decreases names@.len() - i,
    {
        let ghost old_r = r@;
        let name = crate::text::copy_string(names[i]);
        r.push(name);
        proof {
            assert(r@ == old_r.push(name));
            assert(name@ == names@[i as int]@);
            assert forall|k: int| 0 <= k < i + 1 implies #[trigger] string_views(r@)[k] == names@[k]@ by {
                if k < i {
                    assert(string_views(old_r)[k] == names@[k]@);
                    assert(r@[k] == old_r[k]);
                }
            }
            assert(string_views(r@) =~= Seq::new((i + 1) as nat, |k: int| names@[k]@));
        }
        i = i + 1;
    }
    r
}

/// The names under which a DuckDB result of the given shape is printed.
pub fn duckdb_column_names_for(shape: QueryShape) -> (r: Vec<String>)
    ensures
        string_views(r@) == column_names_spec(shape),
{
    match shape {
        QueryShape::Search => {
            let names: [&str; 8] = [
                "chunk_id",
                "path",
                "heading_path",
                "excerpt",
                "score",
                "content_hash",
                "modified_unix",
                "human_relevance_score",
            ];
            let r = strings_of(names.as_slice());
            proof {
                assert(string_views(r@) =~= search_columns());
            }
            r
        },
        QueryShape::Context => {
            let names: [&str; 7] = [
                "chunk_id",
                "path",
                "heading_path",
                "excerpt",
                "content_hash",
                "modified_unix",
                "human_relevance_score",
            ];
            let r = strings_of(names.as_slice());
            proof {
                assert(string_views(r@) =~= context_columns());
            }
            r
        },
        QueryShape::Note => {
            let names: [&str; 7] = [
                "id",
                "path",
                "title",
                "modified_unix",
                "content_hash",
                "human_relevance_score",
                "bounded_content",
            ];
            let r = strings_of(names.as_slice());
            proof {
                assert(string_views(r@) =~= note_columns());
            }
            r
        },
        QueryShape::Related => {
            let names: [&str; 3] = ["kind", "relation", "evidence"];
            let r = strings_of(names.as_slice());
            proof {
                assert(string_views(r@) =~= relation_columns());
            }
            r
        },
    }
}

/// The items that the `SELECT` of each shape's query lists, each written as
/// the text before its output name and the output name itself: an alias
/// after `AS`, or a column after its table qualifier.
pub open spec fn select_items(shape: QueryShape) -> Seq<(Seq<char>, Seq<char>)> {
    match shape {
        QueryShape::Search => seq![
            ("s.id AS "@, "chunk_id"@),
            ("n."@, "path"@),
            ("s."@, "heading_path"@),
            ("substr(s.text, 1, 240) AS "@, "excerpt"@),
            ("CAST(0.0 AS DOUBLE) AS "@, "score"@),
            ("s."@, "content_hash"@),
            ("n."@, "modified_unix"@),
            ("s."@, "human_relevance_score"@),
        ],
        QueryShape::Context => seq![
            ("s.id AS "@, "chunk_id"@),
            ("n."@, "path"@),
            ("s."@, "heading_path"@),
            ("substr(s.text, 1, 700) AS "@, "excerpt"@),
            ("s."@, "content_hash"@),
            ("n."@, "modified_unix"@),
            ("s."@, "human_relevance_score"@),
        ],
        QueryShape::Note => seq![
            ("n."@, "id"@),
            ("n."@, "path"@),
            ("n."@, "title"@),
            ("n."@, "modified_unix"@),
            ("n."@, "content_hash"@),
            ("n."@, "human_relevance_score"@),
            ("substr(group_concat(s.heading_path || ': ' || s.text, char(10)), 1, 4000) AS "@, "bounded_content"@),
        ],
        QueryShape::Related => seq![
            ("'outgoing' AS "@, "kind"@),
            (""@, "relation"@),
            (""@, "evidence"@),
        ],
    }
}

/// The `SELECT` list written out: the items separated by `, `.
pub open spec fn select_list(items: Seq<(Seq<char>, Seq<char>)>) -> Seq<char> {
    join_with(items.map_values(|it: (Seq<char>, Seq<char>)| it.0 + it.1), ", "@)
}

/// The clause `SELECT <list> FROM` of a shape's query.
pub open spec fn select_clause(shape: QueryShape) -> Seq<char> {
    "SELECT "@ + select_list(select_items(shape)) + " FROM "@
}

fn select_items_exec(shape: QueryShape) -> (r: Vec<(&'static str, &'static str)>)
    ensures
        Seq::new(r@.len(), |i: int| (r@[i].0@, r@[i].1@)) == select_items(shape),
{
    let r: Vec<(&'static str, &'static str)> = match shape {
        QueryShape::Search => vec![
            ("s.id AS ", "chunk_id"),
            ("n.", "path"),
            ("s.", "heading_path"),
            ("substr(s.text, 1, 240) AS ", "excerpt"),
            ("CAST(0.0 AS DOUBLE) AS ", "score"),
            ("s.", "content_hash"),
            ("n.", "modified_unix"),
            ("s.", "human_relevance_score"),
        ],
        QueryShape::Context => vec![
            ("s.id AS ", "chunk_id"),
            ("n.", "path"),
            ("s.", "heading_path"),
            ("substr(s.text, 1, 700) AS ", "excerpt"),
            ("s.", "content_hash"),
            ("n.", "modified_unix"),
            ("s.", "human_relevance_score"),
        ],
        QueryShape::Note => vec![
            ("n.", "id"),
            ("n.", "path"),
            ("n.", "title"),
            ("n.", "modified_unix"),
            ("n.", "content_hash"),
            ("n.", "human_relevance_score"),
            ("substr(group_concat(s.heading_path || ': ' || s.text, char(10)), 1, 4000) AS ", "bounded_content"),
        ],
        QueryShape::Related => vec![("'outgoing' AS ", "kind"), ("", "relation"), ("", "evidence")],
    };
    proof {
        assert(Seq::new(r@.len(), |i: int| (r@[i].0@, r@[i].1@)) =~= select_items(shape));
    }
    r
}

/// Appends the clause `SELECT <list> FROM ` of the shape's query.
fn push_select_clause(out: &mut String, shape: QueryShape)
    ensures
        final(out)@ == old(out)@ + select_clause(shape),
{
    let items = select_items_exec(shape);
    let ghost texts = select_items(shape).map_values(|it: (Seq<char>, Seq<char>)| it.0 + it.1);
    let ghost start = old(out)@ + "SELECT "@;
    push_str(out, "SELECT ");
    let mut i: usize = 0;
    proof {
        assert(texts.take(0) =~= Seq::<Seq<char>>::empty());
        assert(out@ =~= start + join_with(texts.take(0), ", "@));
    }
    while i < items.len()
        invariant
            i <= items@.len(),
            texts == select_items(shape).map_values(|it: (Seq<char>, Seq<char>)| it.0 + it.1),
            Seq::new(items@.len(), |k: int| (items@[k].0@, items@[k].1@)) == select_items(shape),
            texts.len() == items@.len(),
            out@ == start + join_with(texts.take(i as int), ", "@),
        decreases items@.len() - i,
    {
        if i > 0 {
            push_str(out, ", ");
        }
        let (before, name) = items[i];
        push_str(out, before);
        push_str(out, name);
        proof {
            assert(select_items(shape)[i as int] == (before@, name@));
            assert(texts[i as int] == before@ + name@);
            let sub = texts.take(i + 1);
            assert(sub.drop_last() =~= texts.take(i as int));
            assert(out@ =~= start + join_with(sub, ", "@));
        }
        i = i + 1;
    }
    push_str(out, " FROM ");
    proof {
        assert(texts.take(items@.len() as int) =~= texts);
        assert(out@ =~= old(out)@ + select_clause(shape));
    }
}

/// The printed column names are the query's own: every query of a shape is
/// built with that shape's `SELECT` clause, and the output names of the
/// clause's items (the alias after `AS`, or the column after its table
/// qualifier) are exactly the names under which its rows are printed.
pub proof fn lemma_column_names_are_query_columns(shape: QueryShape, query: Seq<char>, limit: nat)
    ensures
        select_items(shape).map_values(|it: (Seq<char>, Seq<char>)| it.1) == column_names_spec(
            shape,
        ),
        shape == QueryShape::Search ==> starts_with(
            like_search_sql_spec(query, limit),
            select_clause(shape),
        ),
        shape == QueryShape::Context ==> starts_with(
            like_context_sql_spec(query, limit),
            select_clause(shape),
        ),
        shape == QueryShape::Note ==> starts_with(get_note_sql_spec(query), select_clause(shape)),
        shape == QueryShape::Related ==> crate::text::ends_with(
            related_sql_spec(query),
            select_clause(shape) + RELATED_UNION@,
        ),
{
    assert(select_items(shape).map_values(|it: (Seq<char>, Seq<char>)| it.1) =~= column_names_spec(
        shape,
    ));
    let c = select_clause(shape);
    match shape {
        QueryShape::Search => {
            let q = like_search_sql_spec(query, limit);
            assert(q.subrange(0, c.len() as int) =~= c);
        },
        QueryShape::Context => {
            let q = like_context_sql_spec(query, limit);
            assert(q.subrange(0, c.len() as int) =~= c);
        },
        QueryShape::Note => {
            let q = get_note_sql_spec(query);
            assert(q.subrange(0, c.len() as int) =~= c);
        },
        QueryShape::Related => {
            let q = related_sql_spec(query);
            let t = c + RELATED_UNION@;
            assert(q.subrange(q.len() - t.len(), q.len() as int) =~= t);
        },
    }
}

// ---------------------------------------------------------------------------
// Embedding providers
// ---------------------------------------------------------------------------
/// Where embeddings come from.
#[derive(Debug, Clone, Copy, PartialEq, Eq, Structural)]
pub enum EmbeddingProvider {
    /// The built-in hashed bag of words, eight dimensions.
    Deterministic,
    /// The all-MiniLM-L6-v2 model through the fastembed helper.
    FastEmbedMiniLm,
}

/// Whether a text is embedded as a stored passage or as a query.
#[derive(Debug, Clone, Copy, PartialEq, Eq, Structural)]
pub enum EmbeddingKind {
    Passage,
    Query,
}

pub open spec fn model_selector(value: Option<Seq<char>>) -> Seq<char> {
    let v = match value {
        Some(v) => v,
        None => "deterministic-v0"@,
    };
    crate::config::to_ascii_lowercase(crate::text::trim(v))
}

pub open spec fn unknown_model_message(sel: Seq<char>) -> Seq<char> {
    "unknown embedding model '"@ + sel + "'; supported: deterministic-v0, fastembed-mini-lm"@
}

/// The provider that `--model` names (the deterministic one when absent),
/// read without surrounding white space and in any ASCII case.
pub open spec fn provider_spec(value: Option<Seq<char>>) -> Result<EmbeddingProvider, Seq<char>> {
    let sel = model_selector(value);
    if sel == ""@ || sel == "deterministic"@ || sel == "deterministic-v0"@ {
        Ok(EmbeddingProvider::Deterministic)
    } else if sel == "fastembed"@ || sel == "fastembed-mini-lm"@ || sel == "all-minilm-l6-v2"@ {
        Ok(EmbeddingProvider::FastEmbedMiniLm)
    } else {
        Err(unknown_model_message(sel))
    }
}

pub open spec fn model_name_spec(p: EmbeddingProvider) -> Seq<char> {
    match p {
        EmbeddingProvider::Deterministic => "deterministic-v0"@,
        EmbeddingProvider::FastEmbedMiniLm => "fastembed:sentence-transformers/all-MiniLM-L6-v2"@,
    }
}

impl EmbeddingProvider {
    pub fn from_model_option(value: Option<&str>) -> (r: Result<EmbeddingProvider, String>)
        ensures
            match r {
                Ok(p) => provider_spec(match value {
                    Some(v) => Some(v@),
                    None => None,
                }) == Ok::<EmbeddingProvider, Seq<char>>(p),
                Err(e) => provider_spec(match value {
                    Some(v) => Some(v@),
                    None => None,
                }) == Err::<EmbeddingProvider, Seq<char>>(e@),
            },
    {
        let raw: &str = match value {
            Some(v) => v,
            None => "deterministic-v0",
        };
        let trimmed = crate::text::trim_str(raw);
        let sel = crate::config::ascii_lowercase_chars(trimmed.as_str());
        let s = sel.as_slice();
        proof {
            reveal_strlit("");
        }
        if s.len() == 0 || eq_chars_str(s, "deterministic") || eq_chars_str(s, "deterministic-v0") {
            proof {
                assert(s@.len() == 0 ==> s@ =~= ""@);
            }
            Ok(EmbeddingProvider::Deterministic)
        } else if eq_chars_str(s, "fastembed") || eq_chars_str(s, "fastembed-mini-lm")
            || eq_chars_str(s, "all-minilm-l6-v2") {
            Ok(EmbeddingProvider::FastEmbedMiniLm)
        } else {
            let mut msg = crate::text::copy_string("unknown embedding model '");
            push_str(&mut msg, crate::text::string_of_all(s).as_str());
            push_str(&mut msg, "'; supported: deterministic-v0, fastembed-mini-lm");
            proof {
                assert(s@ != ""@);
                assert(msg@ =~= unknown_model_message(s@));
            }
            Err(msg)
        }
    }

    pub fn model_name(&self) -> (r: &'static str)
        ensures
            r@ == model_name_spec(*self),
    {
        match self {
            EmbeddingProvider::Deterministic => "deterministic-v0",
            EmbeddingProvider::FastEmbedMiniLm => "fastembed:sentence-transformers/all-MiniLM-L6-v2",
        }
    }
}

pub open spec fn kind_label(kind: EmbeddingKind) -> Seq<char> {
    match kind {
        EmbeddingKind::Passage => "passage"@,
        EmbeddingKind::Query => "query"@,
    }
}

/// The JSON strings of the texts, separated by commas.
pub open spec fn json_list_items(texts: Seq<Seq<char>>) -> Seq<char> {
    join_with(texts.map_values(|t: Seq<char>| output_json_string_spec(t)), ","@)
}

/// The request that the fastembed helper reads: the kind of text, the model
/// cache directory and the texts.
pub open spec fn fastembed_request_spec(kind: EmbeddingKind, cache_dir: Seq<char>, texts: Seq<
    Seq<char>,
>) -> Seq<char> {
    "{\"kind\":"@ + output_json_string_spec(kind_label(kind)) + ",\"cache_dir\":"@
        + output_json_string_spec(cache_dir) + ",\"texts\":["@ + json_list_items(texts) + "]}"@
}

pub fn fastembed_request_json(kind: EmbeddingKind, cache_dir: &str, texts: &Vec<String>) -> (r:
    String)
    ensures
        r@ == fastembed_request_spec(kind, cache_dir@, string_views(texts@)),
{
    let label: &str = match kind {
        EmbeddingKind::Passage => "passage",
        EmbeddingKind::Query => "query",
    };
    let mut out = crate::text::copy_string("{\"kind\":");
    push_str(&mut out, json_string(label).as_str());
    push_str(&mut out, ",\"cache_dir\":");
    push_str(&mut out, json_string(cache_dir).as_str());
    push_str(&mut out, ",\"texts\":[");
    let ghost start = out@;
    let ghost tv = string_views(texts@);
    let ghost items = tv.map_values(|t: Seq<char>| output_json_string_spec(t));
    let mut i: usize = 0;
    proof {
        assert(items.take(0) =~= Seq::<Seq<char>>::empty());
    }
    while i < texts.len()
        invariant
            i <= texts@.len(),
            tv == string_views(texts@),
            items == tv.map_values(|t: Seq<char>| output_json_string_spec(t)),
            items.len() == texts@.len(),
            out@ == start + join_with(items.take(i as int), ","@),
        decreases texts@.len() - i,
    {
        if i > 0 {
            push_char(&mut out, ',');
        }
        push_str(&mut out, json_string(texts[i].as_str()).as_str());
        proof {
            let sub = items.take(i + 1);
            assert(sub.drop_last() =~= items.take(i as int));
            assert(sub.last() == output_json_string_spec(texts@[i as int]@));
            reveal_strlit(",");
            assert(out@ =~= start + join_with(sub, ","@));
        }
        i = i + 1;
    }
    push_str(&mut out, "]}");
    proof {
        assert(items.take(texts@.len() as int) =~= items);
        assert(out@ =~= fastembed_request_spec(kind, cache_dir@, tv));
    }
    out
}

pub open spec fn fastembed_model_tag() -> Seq<char> {
    "fastembed:sentence-transformers/all-MiniLM-L6-v2"@
}

/// What the fastembed helper's output gives for `n_texts` texts: its first
/// line names the model, each further line is one embedding, one per text.
pub open spec fn fastembed_output_spec(stdout: Seq<char>, n_texts: nat) -> Result<
    Seq<Seq<char>>,
    Seq<char>,
> {
    let ls = crate::text::lines(stdout);
    if ls.len() == 0 {
        Err("fastembed helper returned no metadata"@)
    } else if !crate::text::contains(ls[0], fastembed_model_tag()) {
        Err("unexpected fastembed metadata: "@ + ls[0])
    } else if ls.len() - 1 != n_texts {
        Err("fastembed helper returned "@ + decimal((ls.len() - 1) as nat) + " vectors for "@
            + decimal(n_texts) + " texts"@)
    } else {
        Ok(ls.drop_first())
    }
}

pub fn fastembed_output(stdout: &str, n_texts: usize) -> (r: Result<Vec<String>, String>)
    ensures
        match r {
            Ok(v) => fastembed_output_spec(stdout@, n_texts as nat) == Ok::<
                Seq<Seq<char>>,
                Seq<char>,
            >(string_views(v@)),
            Err(e) => fastembed_output_spec(stdout@, n_texts as nat) == Err::<
                Seq<Seq<char>>,
                Seq<char>,
            >(e@),
        },
{
    let sv = to_chars(stdout);
    let ls = crate::text::lines_exec(sv.as_slice());
    let ghost lv = crate::text::views(ls@);
    if ls.len() == 0 {
        return Err(crate::text::copy_string("fastembed helper returned no metadata"));
    }
    proof {
        assert(lv[0] == ls@[0]@);
    }
    let tag = to_chars("fastembed:sentence-transformers/all-MiniLM-L6-v2");
    if !crate::text::contains_exec(ls[0].as_slice(), tag.as_slice()) {
        let mut msg = crate::text::copy_string("unexpected fastembed metadata: ");
        push_str(&mut msg, crate::text::string_of_all(ls[0].as_slice()).as_str());
        proof {
            assert(msg@ =~= "unexpected fastembed metadata: "@ + lv[0]);
        }
        return Err(msg);
    }
    let count = ls.len() - 1;
    if count != n_texts {
        let mut msg = crate::text::copy_string("fastembed helper returned ");
        push_decimal(&mut msg, count as u64);
        push_str(&mut msg, " vectors for ");
        push_decimal(&mut msg, n_texts as u64);
        push_str(&mut msg, " texts");
        proof {
            assert(msg@ =~= "fastembed helper returned "@ + decimal(count as nat) + " vectors for "@
                + decimal(n_texts as nat) + " texts"@);
        }
        return Err(msg);
    }
    let mut out: Vec<String> = Vec::new();
    let mut i: usize = 1;
    while i < ls.len()
        invariant
            1 <= i <= ls@.len(),
            lv == crate::text::views(ls@),
            lv.len() == ls@.len(),
            string_views(out@) == lv.subrange(1, i as int),
        decreases ls@.len() - i,
    {
        let line = crate::text::string_of_all(ls[i].as_slice());
        let ghost old_out = out@;
        out.push(line);
        proof {
            assert(lv[i as int] == ls@[i as int]@);
            assert(string_views(out@) =~= string_views(old_out).push(line@));
            assert(string_views(out@) =~= lv.subrange(1, i + 1));
        }
        i = i + 1;
    }
    proof {
        assert(lv.subrange(1, lv.len() as int) =~= lv.drop_first());
    }
    Ok(out)
}

// ---------------------------------------------------------------------------
// The MCP surface
// ---------------------------------------------------------------------------
pub const SERVE_MCP_ONLY: &'static str = "VaultLayer serve currently supports --mcp only";

pub const MCP_TOOLS_JSON: &'static str = "[{\"name\":\"vault_search\",\"description\":\"Search indexed vault chunks with citations\"},{\"name\":\"vault_get_note\",\"description\":\"Return one bounded note with provenance\"},{\"name\":\"vault_related\",\"description\":\"Return WikiLink/backlink related notes\"}]";

pub const MCP_READY_JSON: &'static str = "{\"mcp\":\"vault-layer\",\"status\":\"ready\",\"tools\":[\"vault_search\",\"vault_get_note\",\"vault_related\"]}";

/// The query that an MCP tool call runs.
pub open spec fn mcp_tool_sql_spec(call: Seq<char>, query: Seq<char>, limit: Option<u32>) -> Result<
    Seq<char>,
    Seq<char>,
> {
    if call == "vault_search"@ {
        Ok(
            like_search_sql_spec(
                query,
                match limit {
                    Some(l) => l as nat,
                    None => 10,
                },
            ),
        )
    } else if call == "vault_get_note"@ {
        Ok(get_note_sql_spec(query))
    } else if call == "vault_related"@ {
        Ok(related_sql_spec(query))
    } else {
        Err("unknown MCP tool: "@ + call)
    }
}

pub fn mcp_tool_sql(call: &str, query: &str, limit: Option<u32>) -> (r: Result<String, String>)
    ensures
        match r {
            Ok(sql) => mcp_tool_sql_spec(call@, query@, limit) == Ok::<Seq<char>, Seq<char>>(
                sql@,
            ),
            Err(e) => mcp_tool_sql_spec(call@, query@, limit) == Err::<Seq<char>, Seq<char>>(e@),
        },
{
    let c = to_chars(call);
    if eq_chars_str(c.as_slice(), "vault_search") {
        let n: u32 = match limit {
            Some(l) => l,
            None => 10,
        };
        Ok(like_search_sql(query, n))
    } else if eq_chars_str(c.as_slice(), "vault_get_note") {
        Ok(get_note_sql(query))
    } else if eq_chars_str(c.as_slice(), "vault_related") {
        Ok(related_sql(query))
    } else {
        let mut msg = crate::text::copy_string("unknown MCP tool: ");
        push_str(&mut msg, call);
        Err(msg)
    }
}

/// The shape of the result of an MCP tool's query.
pub open spec fn mcp_tool_shape_spec(call: Seq<char>) -> QueryShape {
    if call == "vault_get_note"@ {
        QueryShape::Note
    } else if call == "vault_related"@ {
        QueryShape::Related
    } else {
        QueryShape::Search
    }
}

/// What `serve` does: print a fixed answer, or run a query on a database and
/// print its rows under the columns of its shape.
#[derive(Debug, Clone, PartialEq, Eq)]
pub enum ServeOutcome {
    Print(String),
    Query { db: String, sql: String, shape: QueryShape },
}

/// `ServeOutcome` as the spec sees it.
pub enum ServeView {
    Print(Seq<char>),
    Query { db: Seq<char>, sql: Seq<char>, shape: QueryShape },
}

pub open spec fn serve_outcome_view(o: ServeOutcome) -> ServeView {
    match o {
        ServeOutcome::Print(t) => ServeView::Print(t@),
        ServeOutcome::Query { db, sql, shape } => ServeView::Query { db: db@, sql: sql@, shape },
    }
}

/// `serve` answers only with `--mcp`; it lists its tools with
/// `--list-tools`, reports readiness when no tool is called, and otherwise
/// runs the called tool's query (default query empty) on the `--db`
/// database, which it needs.
pub open spec fn serve_spec(o: OptionsView) -> Result<ServeView, Seq<char>> {
    if !o.mcp {
        Ok(ServeView::Print(SERVE_MCP_ONLY@))
    } else if o.list_tools {
        Ok(ServeView::Print(MCP_TOOLS_JSON@))
    } else {
        match o.call {
            None => Ok(ServeView::Print(MCP_READY_JSON@)),
            Some(call) => match o.db {
                None => Err(missing_db_message()),
                Some(db) => {
                    let q = match o.query {
                        Some(q) => q,
                        None => Seq::empty(),
                    };
                    match mcp_tool_sql_spec(call, q, o.limit) {
                        Ok(sql) => Ok(ServeView::Query { db, sql, shape: mcp_tool_shape_spec(call) }),
                        Err(e) => Err(e),
                    }
                },
            },
        }
    }
}

fn mcp_tool_shape(call: &str) -> (r: QueryShape)
    ensures
        r == mcp_tool_shape_spec(call@),
{
    let c = to_chars(call);
    if eq_chars_str(c.as_slice(), "vault_get_note") {
        QueryShape::Note
    } else if eq_chars_str(c.as_slice(), "vault_related") {
        QueryShape::Related
    } else {
        QueryShape::Search
    }
}

pub fn serve_outcome(options: &CliOptions) -> (r: Result<ServeOutcome, String>)
    ensures
        match r {
            Ok(o) => serve_spec(options@) == Ok::<ServeView, Seq<char>>(serve_outcome_view(o)),
            Err(e) => serve_spec(options@) == Err::<ServeView, Seq<char>>(e@),
        },
{
    if !options.mcp {
        return Ok(ServeOutcome::Print(crate::text::copy_string(SERVE_MCP_ONLY)));
    }
    if options.list_tools {
        return Ok(ServeOutcome::Print(crate::text::copy_string(MCP_TOOLS_JSON)));
    }
    match &options.call {
        None => Ok(ServeOutcome::Print(crate::text::copy_string(MCP_READY_JSON))),
        Some(call) => {
            let db = match require_db(options) {
                Ok(db) => db,
                Err(e) => {
                    return Err(e);
                },
            };
            let query: String = match &options.query {
                Some(q) => q.clone(),
                None => String::new(),
            };
            match mcp_tool_sql(call.as_str(), query.as_str(), options.limit) {
                Ok(sql) => Ok(ServeOutcome::Query { db, sql, shape: mcp_tool_shape(call.as_str()) }),
                Err(e) => Err(e),
            }
        },
    }
}

// ---------------------------------------------------------------------------
// Reading `sqlite3` tables and writing embedding rows
// ---------------------------------------------------------------------------
/// `str::split` at one character: the pieces between its occurrences.
pub open spec fn split_at_char(s: Seq<char>, c: char) -> Seq<Seq<char>>
    decreases s.len(),
{
    let i = crate::text::find_char(s, c, 0);
    if i >= s.len() {
        seq![s]
    } else {
        proof {
            crate::text::lemma_find_char(s, c, 0);
        }
        seq![s.subrange(0, i)] + split_at_char(s.subrange(i + 1, s.len() as int), c)
    }
}

pub open spec fn row_views(rows: Seq<Vec<String>>) -> Seq<Seq<Seq<char>>> {
    rows.map_values(|r: Vec<String>| string_views(r@))
}

/// The rows of `sqlite3 -separator '\t'` output: one per line, cells split at
/// tabs.
pub open spec fn tab_rows_spec(output: Seq<char>) -> Seq<Seq<Seq<char>>> {
    crate::text::lines(output).map_values(|l: Seq<char>| split_at_char(l, '\t'))
}

fn split_tabs(line: &Vec<char>) -> (r: Vec<String>)
    ensures
        string_views(r@) == split_at_char(line@, '\t'),
{
    let mut out: Vec<String> = Vec::new();
    let mut p: usize = 0;
    proof {
        assert(line@.subrange(0, line@.len() as int) =~= line@);
        assert(string_views(out@) + split_at_char(line@, '\t') =~= split_at_char(line@, '\t'));
    }
    loop
        invariant
            p <= line@.len(),
            string_views(out@) + split_at_char(line@.subrange(p as int, line@.len() as int), '\t')
                == split_at_char(line@, '\t'),
        decreases line@.len() - p,
    {
        let ghost rest = line@.subrange(p as int, line@.len() as int);
        let i = crate::text::find_char_exec(line.as_slice(), '\t', p);
        proof {
            crate::text::lemma_find_char(line@, '\t', p as int);
            crate::text::lemma_find_char_shift(line@, '\t', p as int);
            crate::text::lemma_find_char(rest, '\t', 0);
        }
        let cell = crate::text::string_of(line.as_slice(), p, i);
        let ghost old_out = out@;
        out.push(cell);
        proof {
            assert(string_views(out@) =~= string_views(old_out).push(cell@));
            assert(rest.subrange(0, i - p) =~= line@.subrange(p as int, i as int));
        }
        if i >= line.len() {
            proof {
                assert(split_at_char(rest, '\t') == seq![rest]);
                assert(rest =~= line@.subrange(p as int, i as int));
                assert(string_views(out@) =~= string_views(old_out) + split_at_char(rest, '\t'));
            }
            return out;
        }
        proof {
            assert(rest.subrange(i - p + 1, rest.len() as int) =~= line@.subrange(
                i + 1,
                line@.len() as int,
            ));
            assert(string_views(out@) + split_at_char(line@.subrange(i + 1, line@.len() as int), '\t')
                =~= string_views(old_out) + split_at_char(rest, '\t'));
        }
        p = i + 1;
    }
}

pub fn parse_tab_rows(output: &str) -> (r: Vec<Vec<String>>)
    ensures
        row_views(r@) == tab_rows_spec(output@),
{
    let v = to_chars(output);
    let ls = crate::text::lines_exec(v.as_slice());
    let ghost lv = crate::text::views(ls@);
    let mut rows: Vec<Vec<String>> = Vec::new();
    let mut i: usize = 0;
    while i < ls.len()
        invariant
            i <= ls@.len(),
            lv == crate::text::views(ls@),
            lv == crate::text::lines(output@),
            lv.len() == ls@.len(),
            row_views(rows@) == lv.take(i as int).map_values(|l: Seq<char>| split_at_char(l, '\t')),
        decreases ls@.len() - i,
    {
        let row = split_tabs(&ls[i]);
        let ghost old_rows = rows@;
        rows.push(row);
        proof {
            assert(lv[i as int] == ls@[i as int]@);
            assert(row_views(rows@) =~= row_views(old_rows).push(string_views(row@)));
            assert(lv.take(i + 1).map_values(|l: Seq<char>| split_at_char(l, '\t')) =~= lv.take(
                i as int,
            ).map_values(|l: Seq<char>| split_at_char(l, '\t')).push(split_at_char(lv[i as int], '\t')));
        }
        i = i + 1;
    }
    proof {
        assert(lv.take(ls@.len() as int) =~= lv);
    }
    rows
}

/// The count in the first cell of the first row, if it reads as a number.
pub open spec fn first_cell_count_spec(rows: Seq<Seq<Seq<char>>>) -> Option<nat> {
    if rows.len() == 0 || rows[0].len() == 0 {
        None
    } else {
        parse_uint_spec(rows[0][0], usize::MAX as nat)
    }
}

pub fn first_cell_count(rows: &Vec<Vec<String>>) -> (r: Option<usize>)
    ensures
        match r {
            Some(n) => first_cell_count_spec(row_views(rows@)) == Some(n as nat),
            None => first_cell_count_spec(row_views(rows@)) is None,
        },
{
    if rows.len() == 0 || rows[0].len() == 0 {
        return None;
    }
    proof {
        assert(row_views(rows@)[0] == string_views(rows@[0]@));
        assert(string_views(rows@[0]@)[0] == rows@[0]@[0]@);
    }
    match parse_uint(rows[0][0].as_str(), usize::MAX as u64) {
        Some(n) => Some(n as usize),
        None => None,
    }
}

/// The second cell of each row that has one: the texts to embed.
pub open spec fn second_cells_spec(rows: Seq<Seq<Seq<char>>>) -> Seq<Seq<char>>
    decreases rows.len(),
{
    if rows.len() == 0 {
        seq![]
    } else {
        let acc = second_cells_spec(rows.drop_last());
        if rows.last().len() >= 2 {
            acc.push(rows.last()[1])
        } else {
            acc
        }
    }
}

pub fn second_cells(rows: &Vec<Vec<String>>) -> (r: Vec<String>)
    ensures
        string_views(r@) == second_cells_spec(row_views(rows@)),
{
    let ghost rv = row_views(rows@);
    let mut out: Vec<String> = Vec::new();
    let mut i: usize = 0;
    while i < rows.len()
        invariant
            i <= rows@.len(),
            rv == row_views(rows@),
            rv.len() == rows@.len(),
            string_views(out@) == second_cells_spec(rv.take(i as int)),
        decreases rows@.len() - i,
    {
        let ghost old_out = out@;
        proof {
            assert(rv.take(i + 1).drop_last() =~= rv.take(i as int));
            assert(rv[i as int] == string_views(rows@[i as int]@));
        }
        if rows[i].len() >= 2 {
            let cell = rows[i][1].clone();
            out.push(cell);
            proof {
                assert(string_views(out@) =~= string_views(old_out).push(cell@));
            }
        }
        i = i + 1;
    }
    proof {
        assert(rv.take(rows@.len() as int) =~= rv);
    }
    out
}

pub const EMBEDDING_INSERT_HEAD: &'static str = "INSERT OR REPLACE INTO embeddings(chunk_id, model, dimensions, embedding_json, embedded_at_unix) VALUES(";

/// The statement that stores one embedding of a chunk.
pub open spec fn embedding_insert_spec(chunk_id: Seq<char>, model: Seq<char>, dimensions: nat, embedding: Seq<char>) -> Seq<char> {
    EMBEDDING_INSERT_HEAD@ + sql_literal_spec(chunk_id) + ", "@ + sql_literal_spec(model) + ", "@
        + decimal(dimensions) + ", "@ + sql_literal_spec(embedding)
        + ", strftime('%s','now'));\n"@
}

/// The inserts for the first `n` pairs of row and embedding, skipping rows
/// without an id and a text.
pub open spec fn embedding_inserts(rows: Seq<Seq<Seq<char>>>, embeddings: Seq<Seq<char>>, model: Seq<char>, dimensions: nat, n: nat) -> Seq<char>
    decreases n,
{
    if n == 0 {
        seq![]
    } else {
        let before = embedding_inserts(rows, embeddings, model, dimensions, (n - 1) as nat);
        let row = rows[n - 1];
        if row.len() >= 2 {
            before + embedding_insert_spec(row[0], model, dimensions, embeddings[n - 1])
        } else {
            before
        }
    }
}

/// The `sqlite3` script that replaces the embeddings of `model` with one per
/// pair of row and embedding, in one transaction.
pub open spec fn embedding_script_spec(model: Seq<char>, dimensions: nat, rows: Seq<Seq<Seq<char>>>, embeddings: Seq<Seq<char>>) -> Seq<char> {
    let n: nat = if rows.len() < embeddings.len() {
        rows.len()
    } else {
        embeddings.len()
    };
    "PRAGMA foreign_keys = ON;\nBEGIN; DELETE FROM embeddings WHERE model = "@ + sql_literal_spec(model)
        + ";\n"@ + embedding_inserts(rows, embeddings, model, dimensions, n) + "COMMIT;\n"@
}

pub fn embedding_script(model: &str, dimensions: usize, rows: &Vec<Vec<String>>, embeddings: &Vec<String>) -> (r: String)
    ensures
        r@ == embedding_script_spec(model@, dimensions as nat, row_views(rows@), string_views(embeddings@)),
{
    let ghost rv = row_views(rows@);
    let ghost ev = string_views(embeddings@);
    let mut out = crate::text::copy_string("PRAGMA foreign_keys = ON;\nBEGIN; DELETE FROM embeddings WHERE model = ");
    push_sql_literal(&mut out, model);
    push_str(&mut out, ";\n");
    let ghost start = out@;
    let n: usize = if rows.len() < embeddings.len() {
        rows.len()
    } else {
        embeddings.len()
    };
    let mut i: usize = 0;
    while i < n
        invariant
            i <= n,
            n <= rows@.len(),
            n <= embeddings@.len(),
            rv == row_views(rows@),
            ev == string_views(embeddings@),
            out@ == start + embedding_inserts(rv, ev, model@, dimensions as nat, i as nat),
        decreases n - i,
    {
        proof {
            assert(rv[i as int] == string_views(rows@[i as int]@));
            assert(ev[i as int] == embeddings@[i as int]@);
        }
        if rows[i].len() >= 2 {
            proof {
                assert(rv[i as int][0] == rows@[i as int]@[0]@);
            }
            push_str(&mut out, EMBEDDING_INSERT_HEAD);
            push_sql_literal(&mut out, rows[i][0].as_str());
            push_str(&mut out, ", ");
            push_sql_literal(&mut out, model);
            push_str(&mut out, ", ");
            push_decimal(&mut out, dimensions as u64);
            push_str(&mut out, ", ");
            push_sql_literal(&mut out, embeddings[i].as_str());
            push_str(&mut out, ", strftime('%s','now'));\n");
            proof {
                assert(out@ =~= start + embedding_inserts(rv, ev, model@, dimensions as nat, (i + 1) as nat));
            }
        }
        i = i + 1;
    }
    push_str(&mut out, "COMMIT;\n");
    proof {
        assert(out@ =~= embedding_script_spec(model@, dimensions as nat, rv, ev));
    }
    out
}

/// The texts one after the other.
pub open spec fn concat_texts(ts: Seq<Seq<char>>) -> Seq<char>
    decreases ts.len(),
{
    if ts.len() == 0 {
        seq![]
    } else {
        concat_texts(ts.drop_last()) + ts.last()
    }
}

/// Every row that carries an id and a text gets exactly one insert, with
/// its own embedding: when all rows have both cells, the inserts are one per
/// row, in order.
pub proof fn lemma_one_insert_per_row(
    rows: Seq<Seq<Seq<char>>>,
    embeddings: Seq<Seq<char>>,
    model: Seq<char>,
    dimensions: nat,
    n: nat,
)
    requires
        n <= rows.len(),
        n <= embeddings.len(),
        forall|k: int| 0 <= k < n ==> (#[trigger] rows[k]).len() >= 2,
    ensures
        embedding_inserts(rows, embeddings, model, dimensions, n) == concat_texts(
            Seq::new(n, |k: int| embedding_insert_spec(rows[k][0], model, dimensions, embeddings[k])),
        ),
    decreases n,
{
    if n > 0 {
        lemma_one_insert_per_row(rows, embeddings, model, dimensions, (n - 1) as nat);
        let all = Seq::new(n, |k: int| embedding_insert_spec(rows[k][0], model, dimensions, embeddings[k]));
        let prev = Seq::new((n - 1) as nat, |k: int| embedding_insert_spec(rows[k][0], model, dimensions, embeddings[k]));
        assert(all.drop_last() =~= prev);
        assert(rows[n - 1].len() >= 2);
    }
}

pub open spec fn mismatched_vectors_message() -> Seq<char> {
    "embedding provider returned mismatched row count"@
}

/// The script that stores a batch of embeddings for the rows it was made
/// from, refused when the provider did not return one vector per row.
pub fn embedding_write_script(
    model: &str,
    dimensions: usize,
    rows: &Vec<Vec<String>>,
    embeddings: &Vec<String>,
) -> (r: Result<String, String>)
    ensures
        match r {
            Ok(sql) => rows@.len() == embeddings@.len() && sql@ == embedding_script_spec(
                model@,
                dimensions as nat,
                row_views(rows@),
                string_views(embeddings@),
            ),
            Err(e) => rows@.len() != embeddings@.len() && e@ == mismatched_vectors_message(),
        },
{
    if embeddings.len() != rows.len() {
        return Err(crate::text::copy_string("embedding provider returned mismatched row count"));
    }
    Ok(embedding_script(model, dimensions, rows, embeddings))
}

// ---------------------------------------------------------------------------
// Remote sync batches
// ---------------------------------------------------------------------------
/// The request bodies that send `stmts` in batches of `size` statements (the
/// last batch may be shorter).
pub open spec fn batch_bodies_spec(stmts: Seq<Seq<char>>, size: nat) -> Seq<Seq<char>>
    decreases stmts.len(),
{
    if stmts.len() == 0 || size == 0 {
        seq![]
    } else {
        let m = if size < stmts.len() {
            size
        } else {
            stmts.len()
        };
        seq![crate::sql::pipeline_request_spec(stmts.take(m as int))] + batch_bodies_spec(
            stmts.skip(m as int),
            size,
        )
    }
}

/// `stmts` cut into consecutive batches of `size` statements, the last one
/// possibly shorter.
pub open spec fn batch_chunks(stmts: Seq<Seq<char>>, size: nat) -> Seq<Seq<Seq<char>>>
    decreases stmts.len(),
{
    if stmts.len() == 0 || size == 0 {
        seq![]
    } else {
        let m = if size < stmts.len() {
            size
        } else {
            stmts.len()
        };
        seq![stmts.take(m as int)] + batch_chunks(stmts.skip(m as int), size)
    }
}

/// The batches one after the other.
pub open spec fn flatten_batches(chunks: Seq<Seq<Seq<char>>>) -> Seq<Seq<char>>
    decreases chunks.len(),
{
    if chunks.len() == 0 {
        seq![]
    } else {
        chunks[0] + flatten_batches(chunks.drop_first())
    }
}

/// Every statement is sent exactly once and in order: the request bodies are
/// those of consecutive batches that together are the statements, each batch
/// non-empty and no larger than the batch size.
pub proof fn lemma_batches_cover_statements(stmts: Seq<Seq<char>>, size: nat)
    requires
        size > 0,
    ensures
        batch_bodies_spec(stmts, size) == batch_chunks(stmts, size).map_values(
            |c: Seq<Seq<char>>| crate::sql::pipeline_request_spec(c),
        ),
        flatten_batches(batch_chunks(stmts, size)) == stmts,
        forall|k: int|
            0 <= k < batch_chunks(stmts, size).len() ==> 0 < (#[trigger] batch_chunks(
                stmts,
                size,
            )[k]).len() <= size,
    decreases stmts.len(),
{
    if stmts.len() > 0 {
        let m = if size < stmts.len() {
            size
        } else {
            stmts.len()
        };
        let rest = stmts.skip(m as int);
        lemma_batches_cover_statements(rest, size);
        let chunks = batch_chunks(stmts, size);
        assert(chunks == seq![stmts.take(m as int)] + batch_chunks(rest, size));
        assert(chunks.drop_first() =~= batch_chunks(rest, size));
        assert(stmts.take(m as int) + rest =~= stmts);
        assert(batch_bodies_spec(stmts, size) =~= chunks.map_values(
            |c: Seq<Seq<char>>| crate::sql::pipeline_request_spec(c),
        ));
        assert forall|k: int| 0 <= k < chunks.len() implies 0 < (#[trigger] chunks[k]).len()
            <= size by {
            if k > 0 {
                assert(chunks[k] == batch_chunks(rest, size)[k - 1]);
            }
        }
    } else {
        assert(batch_bodies_spec(stmts, size) =~= batch_chunks(stmts, size).map_values(
            |c: Seq<Seq<char>>| crate::sql::pipeline_request_spec(c),
        ));
    }
}

/// The batch size in use: at least one statement per batch.
pub open spec fn effective_batch_size(batch_size: nat) -> nat {
    if batch_size == 0 {
        1
    } else {
        batch_size
    }
}

/// The `/v2/pipeline` request bodies that carry `statements` to a remote
/// database, `batch_size` statements each (one if zero is given).
pub fn pipeline_batches(statements: &Vec<String>, batch_size: usize) -> (r: Vec<String>)
    ensures
        string_views(r@) == batch_bodies_spec(string_views(statements@), effective_batch_size(batch_size as nat)),
{
    let size: usize = if batch_size == 0 {
        1
    } else {
        batch_size
    };
    let ghost sv = string_views(statements@);
    let mut out: Vec<String> = Vec::new();
    let mut start: usize = 0;
    proof {
        assert(sv.skip(0) =~= sv);
        assert(string_views(out@) + batch_bodies_spec(sv, size as nat) =~= batch_bodies_spec(sv, size as nat));
    }
    while start < statements.len()
        invariant
            start <= statements@.len(),
            size >= 1,
            size as nat == effective_batch_size(batch_size as nat),
            sv == string_views(statements@),
            sv.len() == statements@.len(),
            string_views(out@) + batch_bodies_spec(sv.skip(start as int), size as nat)
                == batch_bodies_spec(sv, size as nat),
        decreases statements@.len() - start,
    {
        let end: usize = if statements.len() - start > size {
            start + size
        } else {
            statements.len()
        };
        let mut chunk: Vec<String> = Vec::new();
        let mut k = start;
        while k < end
            invariant
                start <= k <= end <= statements@.len(),
                sv == string_views(statements@),
                string_views(chunk@) == sv.subrange(start as int, k as int),
            decreases end - k,
        {
            let item = statements[k].clone();
            let ghost old_chunk = chunk@;
            chunk.push(item);
            proof {
                assert(string_views(chunk@) =~= string_views(old_chunk).push(item@));
                assert(sv[k as int] == statements@[k as int]@);
                assert(string_views(chunk@) =~= sv.subrange(start as int, k + 1));
            }
            k = k + 1;
        }
        let body = crate::sql::turso_pipeline_request_json(chunk.as_slice());
        let ghost old_out = out@;
        out.push(body);
        proof {
            let rest = sv.skip(start as int);
            let m = (end - start) as int;
            assert(rest.take(m) =~= sv.subrange(start as int, end as int));
            assert(rest.skip(m) =~= sv.skip(end as int));
            assert(string_views(out@) =~= string_views(old_out).push(body@));
            assert(batch_bodies_spec(rest, size as nat) == seq![crate::sql::pipeline_request_spec(rest.take(m))]
                + batch_bodies_spec(rest.skip(m), size as nat));
            assert(string_views(out@) + batch_bodies_spec(sv.skip(end as int), size as nat)
                =~= string_views(old_out) + batch_bodies_spec(rest, size as nat));
        }
        start = end;
    }
    proof {
        assert(sv.skip(sv.len() as int) =~= Seq::<Seq<char>>::empty());
        assert(string_views(out@) + batch_bodies_spec(Seq::<Seq<char>>::empty(), size as nat) =~= string_views(out@));
    }
    out
}

/// The number of batches: the statements divided by the batch size,
/// rounded up.
pub proof fn lemma_batch_count(stmts: Seq<Seq<char>>, size: nat)
    requires
        size > 0,
    ensures
        batch_bodies_spec(stmts, size).len() == (stmts.len() + size - 1) as int / size as int,
    decreases stmts.len(),
{
    let n: int = stmts.len() as int;
    let z: int = size as int;
    if n > 0 {
        let m = if size < stmts.len() {
            size
        } else {
            stmts.len()
        };
        lemma_batch_count(stmts.skip(m as int), size);
        if z < n {
            assert((n + z - 1) / z == 1 + (n - z + z - 1) / z) by (nonlinear_arith)
                requires
                    z > 0,
                    z < n,
            ;
        } else {
            assert(stmts.skip(m as int).len() == 0);
            assert((n + z - 1) / z == 1) by (nonlinear_arith)
                requires
                    z > 0,
                    0 < n <= z,
            ;
            assert((0 + z - 1) / z == 0) by (nonlinear_arith)
                requires
                    z > 0,
            ;
        }
    } else {
        assert((z - 1) / z == 0) by (nonlinear_arith)
            requires
                z > 0,
        ;
    }
}

/// What to do after a batch went out.
#[derive(Debug, Clone, Copy, PartialEq, Eq, Structural)]
pub enum SyncStep {
    /// Send the batch with this index next.
    Send(usize),
    /// Every batch went out; this many were sent.
    Done(usize),
}

pub open spec fn batch_failure_message(index: nat, output: Seq<char>) -> Seq<char> {
    "curl batch "@ + decimal(index) + " failed: "@ + output
}

/// The step after batch `index` of `count`: the next batch, or done with
/// `count` batches sent when it succeeded; the failure, with what the
/// sender printed, when it did not.
pub open spec fn after_batch_spec(index: nat, count: nat, succeeded: bool, output: Seq<char>) -> Result<
    SyncStep,
    Seq<char>,
> {
    if !succeeded {
        Err(batch_failure_message(index, output))
    } else if index + 1 < count {
        Ok(SyncStep::Send((index + 1) as usize))
    } else {
        Ok(SyncStep::Done(count as usize))
    }
}

/// What a remote sync does once the request for batch `index` of `count`
/// has run: whether it succeeded, and what the sender printed.
pub fn after_batch(index: usize, count: usize, succeeded: bool, output: &str) -> (r: Result<
    SyncStep,
    String,
>)
    requires
        index < count,
    ensures
        match r {
            Ok(step) => after_batch_spec(index as nat, count as nat, succeeded, output@) == Ok::<
                SyncStep,
                Seq<char>,
            >(step),
            Err(e) => after_batch_spec(index as nat, count as nat, succeeded, output@) == Err::<
                SyncStep,
                Seq<char>,
            >(e@),
        },
{
    if !succeeded {
        let mut msg = crate::text::copy_string("curl batch ");
        push_decimal(&mut msg, index as u64);
        push_str(&mut msg, " failed: ");
        push_str(&mut msg, output);
        proof {
            assert(msg@ =~= batch_failure_message(index as nat, output@));
        }
        return Err(msg);
    }
    if index + 1 < count {
        Ok(SyncStep::Send(index + 1))
    } else {
        Ok(SyncStep::Done(count))
    }
}

/// A whole sync driven by `after_batch` from batch `i` on, given whether
/// each batch's request succeeded and what it printed: how many requests
/// were made, and the outcome.
pub open spec fn sync_run(results: Seq<bool>, outputs: Seq<Seq<char>>, count: nat, i: nat) -> (
    nat,
    Result<nat, Seq<char>>,
)
    decreases count - i,
{
    if i >= count {
        (i, Ok(count))
    } else {
        match after_batch_spec(i, count, results[i as int], outputs[i as int]) {
            Err(e) => (i + 1, Err(e)),
            Ok(_) => sync_run(results, outputs, count, i + 1),
        }
    }
}

/// The first batch from `i` on whose request failed; `count` when none did.
pub open spec fn first_failure(results: Seq<bool>, count: nat, i: nat) -> nat
    decreases count - i,
{
    if i >= count {
        count
    } else if !results[i as int] {
        i
    } else {
        first_failure(results, count, i + 1)
    }
}

/// A sync stops at the first failed batch: it makes the requests up to and
/// including that one and reports it; when every request succeeds it makes
/// all of them and reports their number (none, and success, for no
/// statements).
pub proof fn lemma_sync_stops_at_first_failure(results: Seq<bool>, outputs: Seq<Seq<char>>, count: nat, i: nat)
    requires
        i <= count,
        count <= results.len(),
        count <= outputs.len(),
    ensures
        ({
            let f = first_failure(results, count, i);
            sync_run(results, outputs, count, i) == if f < count {
                (f + 1, Err::<nat, Seq<char>>(batch_failure_message(f, outputs[f as int])))
            } else {
                (count, Ok::<nat, Seq<char>>(count))
            }
        }),
    decreases count - i,
{
    if i < count {
        lemma_sync_stops_at_first_failure(results, outputs, count, i + 1);
    }
}

// ---------------------------------------------------------------------------
// Indexing decisions
// ---------------------------------------------------------------------------
/// What `index` does for the configured backend.
#[derive(Debug, Clone, Copy, PartialEq, Eq, Structural)]
pub enum IndexPlan {
    /// Remote database and `--remote-sync`: upload as `sync-turso` does.
    SyncRemote,
    /// Remote database without `--remote-sync`: refuse.
    RefuseRemote,
    WriteDuckdb,
    WriteLibsql,
    WriteSqlite,
}

pub open spec fn index_plan_spec(kind: crate::config::StorageBackendKind, remote_sync: bool) -> IndexPlan {
    match kind {
        crate::config::StorageBackendKind::TursoRemote => if remote_sync {
            IndexPlan::SyncRemote
        } else {
            IndexPlan::RefuseRemote
        },
        crate::config::StorageBackendKind::LocalDuckdb => IndexPlan::WriteDuckdb,
        crate::config::StorageBackendKind::LocalLibsql => IndexPlan::WriteLibsql,
        crate::config::StorageBackendKind::LocalSqlite => IndexPlan::WriteSqlite,
    }
}

/// Remote upload happens only when asked for: a remote backend without
/// `--remote-sync` is refused, never written to.
pub fn index_plan(kind: crate::config::StorageBackendKind, remote_sync: bool) -> (r: IndexPlan)
    ensures
        r == index_plan_spec(kind, remote_sync),
{
    match kind {
        crate::config::StorageBackendKind::TursoRemote => if remote_sync {
            IndexPlan::SyncRemote
        } else {
            IndexPlan::RefuseRemote
        },
        crate::config::StorageBackendKind::LocalDuckdb => IndexPlan::WriteDuckdb,
        crate::config::StorageBackendKind::LocalLibsql => IndexPlan::WriteLibsql,
        crate::config::StorageBackendKind::LocalSqlite => IndexPlan::WriteSqlite,
    }
}

/// Nothing is uploaded unless asked for: `index` syncs to a remote database
/// only with `--remote-sync`, and only when the backend is the remote one.
pub proof fn lemma_remote_upload_only_when_asked(kind: crate::config::StorageBackendKind, remote_sync: bool)
    ensures
        index_plan_spec(kind, remote_sync) == IndexPlan::SyncRemote <==> (remote_sync && kind
            == crate::config::StorageBackendKind::TursoRemote),
        index_plan_spec(kind, false) != IndexPlan::SyncRemote,
{
}

/// An existing SQLite index is kept, unless `--force` is given, when it
/// already holds as many notes as the scan found.
pub fn keep_existing_index(force: bool, db_exists: bool, existing_notes: Option<usize>, scanned_notes: usize) -> (b: bool)
    ensures
        b == (!force && db_exists && existing_notes == Some(scanned_notes)),
{
    !force && db_exists && match existing_notes {
        Some(n) => n == scanned_notes,
        None => false,
    }
}

/// Progress is reported for the first five items and every 500th after.
pub fn progress_due(count: usize) -> (b: bool)
    ensures
        b == (count <= 5 || count % 500 == 0),
{
    count <= 5 || count % 500 == 0
}

} // verus!
