//! SQL and JSON text for the shadow index: literals, the Turso/libSQL
//! pipeline protocol and schema splitting.
use vstd::prelude::*;

use crate::ids::hex_fixed;
use crate::note::string_views;
use crate::ids::push_hex_fixed;
use crate::text::copy_string;
use crate::text::ends_with;
use crate::text::lines;
use crate::text::push_char;
use crate::text::push_str;
use crate::text::starts_with;
use crate::text::to_chars;
use crate::text::trim;
use crate::text::trim_end_set;
use crate::text::CharSet;

verus! {

// ---------------------------------------------------------------------------
// SQL string literals
// ---------------------------------------------------------------------------

/// NUL and SUB cannot travel through the `sqlite3` shell; they become spaces.
pub open spec fn sql_sanitize(c: char) -> char {
    if c == '\0' || c == '\u{1a}' {
        ' '
    } else {
        c
    }
}

/// The literal text of one character: a quote is doubled.
pub open spec fn sql_piece(c: char) -> Seq<char> {
    if sql_sanitize(c) == '\'' {
        seq!['\'', '\'']
    } else {
        seq![sql_sanitize(c)]
    }
}

/// The inside of the SQL literal for `s`.
pub open spec fn sql_body(s: Seq<char>) -> Seq<char>
    decreases s.len(),
{
    if s.len() == 0 {
        seq![]
    } else {
        sql_piece(s[0]) + sql_body(s.drop_first())
    }
}

/// The SQL string literal for `s`: quoted, quotes doubled, NUL and SUB
/// replaced by spaces.
pub open spec fn sql_literal_spec(s: Seq<char>) -> Seq<char> {
    seq!['\''] + sql_body(s) + seq!['\'']
}

pub proof fn lemma_sql_body_concat(a: Seq<char>, b: Seq<char>)
    ensures
        sql_body(a + b) == sql_body(a) + sql_body(b),
    decreases a.len(),
{
    if a.len() == 0 {
        assert(a + b =~= b);
    } else {
        assert((a + b).drop_first() =~= a.drop_first() + b);
        lemma_sql_body_concat(a.drop_first(), b);
        assert(sql_body(a + b) =~= sql_body(a) + sql_body(b));
    }
}

pub proof fn lemma_sql_body_single(c: char)
    ensures
        sql_body(seq![c]) == sql_piece(c),
{
    assert(seq![c].drop_first() =~= Seq::<char>::empty());
    assert(sql_piece(c) + sql_body(Seq::<char>::empty()) =~= sql_piece(c));
}

/// `value` as a SQL string literal.
pub fn sql_literal(value: &str) -> (r: String)
    ensures
        r@ == sql_literal_spec(value@),
{
    let v = to_chars(value);
    let mut out = String::new();
    push_char(&mut out, '\'');
    let mut i: usize = 0;
    proof {
        assert(v@.subrange(0, 0) =~= Seq::<char>::empty());
    }
    while i < v.len()
        invariant
            i <= v@.len(),
            v@ == value@,
            out@ == seq!['\''] + sql_body(v@.subrange(0, i as int)),
        decreases v@.len() - i,
    {
        let c = v[i];
        let s = if c == '\0' || c == '\u{1a}' {
            ' '
        } else {
            c
        };
        if s == '\'' {
            push_char(&mut out, '\'');
            push_char(&mut out, '\'');
        } else {
            push_char(&mut out, s);
        }
        proof {
            lemma_sql_body_concat(v@.subrange(0, i as int), seq![c]);
            lemma_sql_body_single(c);
            assert(v@.subrange(0, i + 1) =~= v@.subrange(0, i as int) + seq![c]);
            assert(out@ =~= seq!['\''] + sql_body(v@.subrange(0, i + 1)));
        }
        i = i + 1;
    }
    push_char(&mut out, '\'');
    proof {
        assert(v@.subrange(0, v@.len() as int) =~= v@);
    }
    out
}

/// Reads the inside of a SQL string literal: `''` stands for one quote, a
/// lone quote would end the literal.
pub open spec fn sql_read_body(t: Seq<char>) -> Option<Seq<char>>
    decreases t.len(),
{
    if t.len() == 0 {
        Some(seq![])
    } else if t[0] == '\'' {
        if t.len() >= 2 && t[1] == '\'' {
            match sql_read_body(t.subrange(2, t.len() as int)) {
                Some(r) => Some(seq!['\''] + r),
                None => None,
            }
        } else {
            None
        }
    } else {
        match sql_read_body(t.drop_first()) {
            Some(r) => Some(seq![t[0]] + r),
            None => None,
        }
    }
}

/// A SQL literal reads back as the value it quotes, with NUL and SUB turned
/// into spaces; so no value can close the literal early.
pub proof fn lemma_sql_literal_round_trip(s: Seq<char>)
    ensures
        sql_read_body(sql_body(s)) == Some(Seq::new(s.len(), |i: int| sql_sanitize(s[i]))),
    decreases s.len(),
{
    let expect = Seq::new(s.len(), |i: int| sql_sanitize(s[i]));
    if s.len() == 0 {
        assert(expect =~= Seq::<char>::empty());
    } else {
        let rest = s.drop_first();
        lemma_sql_literal_round_trip(rest);
        let t = sql_body(s);
        let c = sql_sanitize(s[0]);
        assert(expect =~= seq![c] + Seq::new(rest.len(), |i: int| sql_sanitize(rest[i])));
        if c == '\'' {
            assert(t.subrange(2, t.len() as int) =~= sql_body(rest));
        } else {
            assert(t.drop_first() =~= sql_body(rest));
        }
    }
}

/// No NUL or SUB character appears in a SQL literal.
pub proof fn lemma_sql_literal_clean(s: Seq<char>)
    ensures
        forall|i: int|
            0 <= i < sql_body(s).len() ==> #[trigger] sql_body(s)[i] != '\0' && sql_body(s)[i]
                != '\u{1a}',
    decreases s.len(),
{
    if s.len() > 0 {
        lemma_sql_literal_clean(s.drop_first());
        let p = sql_piece(s[0]);
        assert forall|i: int| 0 <= i < sql_body(s).len() implies #[trigger] sql_body(s)[i]
            != '\0' && sql_body(s)[i] != '\u{1a}' by {
            if i >= p.len() {
                assert(sql_body(s)[i] == sql_body(s.drop_first())[i - p.len()]);
            }
        }
    }
}

// ---------------------------------------------------------------------------
// JSON string literals
// ---------------------------------------------------------------------------

/// The Unicode `Cc` category, which `char::is_control` tests.
pub open spec fn is_control(c: char) -> bool {
    c <= '\u{1f}' || ('\u{7f}' <= c && c <= '\u{9f}')
}

/// The JSON escape of one character.
pub open spec fn json_piece(c: char) -> Seq<char> {
    if c == '\\' {
        seq!['\\', '\\']
    } else if c == '"' {
        seq!['\\', '"']
    } else if c == '\n' {
        seq!['\\', 'n']
    } else if c == '\r' {
        seq!['\\', 'r']
    } else if c == '\t' {
        seq!['\\', 't']
    } else if is_control(c) {
        seq!['\\', 'u'] + hex_fixed((c as u32) as nat, 4)
    } else {
        seq![c]
    }
}

pub open spec fn json_body(s: Seq<char>) -> Seq<char>
    decreases s.len(),
{
    if s.len() == 0 {
        seq![]
    } else {
        json_piece(s[0]) + json_body(s.drop_first())
    }
}

/// The JSON string literal for `s`.
pub open spec fn json_string_spec(s: Seq<char>) -> Seq<char> {
    seq!['"'] + json_body(s) + seq!['"']
}

pub proof fn lemma_json_body_concat(a: Seq<char>, b: Seq<char>)
    ensures
        json_body(a + b) == json_body(a) + json_body(b),
    decreases a.len(),
{
    if a.len() == 0 {
        assert(a + b =~= b);
    } else {
        assert((a + b).drop_first() =~= a.drop_first() + b);
        lemma_json_body_concat(a.drop_first(), b);
        assert(json_body(a + b) =~= json_body(a) + json_body(b));
    }
}

pub proof fn lemma_json_body_single(c: char)
    ensures
        json_body(seq![c]) == json_piece(c),
{
    assert(seq![c].drop_first() =~= Seq::<char>::empty());
    assert(json_piece(c) + json_body(Seq::<char>::empty()) =~= json_piece(c));
}

/// Appends the JSON escape of `c` to `out`.
fn push_json_char(out: &mut String, c: char)
    ensures
        final(out)@ == old(out)@ + json_piece(c),
{
    if c == '\\' {
        push_char(out, '\\');
        push_char(out, '\\');
    } else if c == '"' {
        push_char(out, '\\');
        push_char(out, '"');
    } else if c == '\n' {
        push_char(out, '\\');
        push_char(out, 'n');
    } else if c == '\r' {
        push_char(out, '\\');
        push_char(out, 'r');
    } else if c == '\t' {
        push_char(out, '\\');
        push_char(out, 't');
    } else if c <= '\u{1f}' || ('\u{7f}' <= c && c <= '\u{9f}') {
        push_char(out, '\\');
        push_char(out, 'u');
        push_hex_fixed(out, (c as u32) as u64, 4);
    } else {
        push_char(out, c);
    }
    proof {
        assert(final(out)@ =~= old(out)@ + json_piece(c));
    }
}

/// `value` as a JSON string literal.
pub fn json_string(value: &str) -> (r: String)
    ensures
        r@ == json_string_spec(value@),
{
    let v = to_chars(value);
    let mut out = String::new();
    push_char(&mut out, '"');
    let mut i: usize = 0;
    proof {
        assert(v@.subrange(0, 0) =~= Seq::<char>::empty());
    }
    while i < v.len()
        invariant
            i <= v@.len(),
            v@ == value@,
            out@ == seq!['"'] + json_body(v@.subrange(0, i as int)),
        decreases v@.len() - i,
    {
        let c = v[i];
        push_json_char(&mut out, c);
        proof {
            lemma_json_body_concat(v@.subrange(0, i as int), seq![c]);
            lemma_json_body_single(c);
            assert(v@.subrange(0, i + 1) =~= v@.subrange(0, i as int) + seq![c]);
            assert(out@ =~= seq!['"'] + json_body(v@.subrange(0, i + 1)));
        }
        i = i + 1;
    }
    push_char(&mut out, '"');
    proof {
        assert(v@.subrange(0, v@.len() as int) =~= v@);
    }
    out
}

pub open spec fn is_hex_digit(c: char) -> bool {
    ('0' <= c && c <= '9') || ('a' <= c && c <= 'f') || ('A' <= c && c <= 'F')
}

pub open spec fn hex_digit_value(c: char) -> nat {
    if '0' <= c && c <= '9' {
        ((c as int) - 48) as nat
    } else if 'a' <= c && c <= 'f' {
        ((c as int) - 87) as nat
    } else {
        ((c as int) - 55) as nat
    }
}

/// The number written by a run of hex digits.
pub open spec fn hex_value(d: Seq<char>) -> nat
    decreases d.len(),
{
    if d.len() == 0 {
        0
    } else {
        hex_value(d.drop_last()) * 16 + hex_digit_value(d.last())
    }
}

pub open spec fn pow16(n: nat) -> nat
    decreases n,
{
    if n == 0 {
        1
    } else {
        16 * pow16((n - 1) as nat)
    }
}

/// Reads the inside of a JSON string literal; `None` when it is not one
/// (a bare `"`, or an escape JSON does not define).
pub open spec fn json_read_body(t: Seq<char>) -> Option<Seq<char>>
    decreases t.len(),
{
    if t.len() == 0 {
        Some(seq![])
    } else if t[0] == '"' {
        None
    } else if t[0] == '\\' {
        if t.len() < 2 {
            None
        } else {
            let e = t[1];
            let (c, n): (Option<char>, int) = if e == '\\' {
                (Some('\\'), 2)
            } else if e == '"' {
                (Some('"'), 2)
            } else if e == 'n' {
                (Some('\n'), 2)
            } else if e == 'r' {
                (Some('\r'), 2)
            } else if e == 't' {
                (Some('\t'), 2)
            } else if e == 'u' && t.len() >= 6 && is_hex_digit(t[2]) && is_hex_digit(t[3])
                && is_hex_digit(t[4]) && is_hex_digit(t[5]) {
                (Some(hex_value(t.subrange(2, 6)) as char), 6)
            } else {
                (None, 2)
            };
            match c {
                None => None,
                Some(ch) => match json_read_body(t.subrange(n, t.len() as int)) {
                    Some(r) => Some(seq![ch] + r),
                    None => None,
                },
            }
        }
    } else {
        match json_read_body(t.drop_first()) {
            Some(r) => Some(seq![t[0]] + r),
            None => None,
        }
    }
}

proof fn lemma_hex_fixed_value(h: nat, n: nat)
    requires
        h < pow16(n),
    ensures
        hex_value(hex_fixed(h, n)) == h,
        forall|i: int| 0 <= i < n ==> is_hex_digit(#[trigger] hex_fixed(h, n)[i]),
        hex_fixed(h, n).len() == n,
    decreases n,
{
    crate::ids::lemma_hex_fixed(h, n);
    if n == 0 {
    } else {
        let p = pow16((n - 1) as nat);
        assert(h / 16 < p) by (nonlinear_arith)
            requires
                h < 16 * p,
        ;
        lemma_hex_fixed_value(h / 16, (n - 1) as nat);
        let d = hex_fixed(h, n);
        assert(d.drop_last() =~= hex_fixed(h / 16, (n - 1) as nat));
        assert(hex_digit_value(crate::ids::hex_digit(h % 16)) == h % 16);
        assert((h / 16) * 16 + h % 16 == h) by (nonlinear_arith);
        assert forall|i: int| 0 <= i < n implies is_hex_digit(#[trigger] hex_fixed(h, n)[i]) by {
            assert(crate::ids::is_hex_char(hex_fixed(h, n)[i]));
        }
    }
}

/// A stable hash reads back as the hash: its sixteen characters are
/// lowercase hex digits, and read in base 16 they are the 64-bit FNV-1a fold
/// over the UTF-8 bytes of the input (offset `0xcbf29ce484222325`; each byte
/// xored in, then multiplied by `0x100000001b3` modulo 2^64).
pub proof fn lemma_stable_hash_reads_back(input: Seq<char>)
    ensures
        crate::ids::stable_hash_spec(input).len() == 16,
        forall|i: int|
            0 <= i < 16 ==> crate::ids::is_hex_char(#[trigger] crate::ids::stable_hash_spec(input)[i]),
        hex_value(crate::ids::stable_hash_spec(input)) == crate::ids::fnv1a(
            vstd::utf8::encode_utf8(input),
        ) as nat,
{
    let h = crate::ids::fnv1a(vstd::utf8::encode_utf8(input)) as nat;
    reveal_with_fuel(pow16, 17);
    assert(pow16(16) == 0x1_0000_0000_0000_0000nat);
    lemma_hex_fixed_value(h, 16);
    crate::ids::lemma_hex_fixed(h, 16);
}

proof fn lemma_control_escape(c: char)
    requires
        is_control(c),
    ensures
        hex_value(hex_fixed((c as u32) as nat, 4)) as char == c,
        hex_fixed((c as u32) as nat, 4).len() == 4,
        forall|i: int| 0 <= i < 4 ==> is_hex_digit(#[trigger] hex_fixed((c as u32) as nat, 4)[i]),
{
    assert(((c as u32) as nat) < 160);
    reveal_with_fuel(pow16, 5);
    assert(pow16(4) == 65536);
    lemma_hex_fixed_value((c as u32) as nat, 4);
}

/// A JSON literal reads back as the text it encodes.
pub proof fn lemma_json_string_round_trip(s: Seq<char>)
    ensures
        json_read_body(json_body(s)) == Some(s),
    decreases s.len(),
{
    if s.len() == 0 {
    } else {
        let rest = s.drop_first();
        lemma_json_string_round_trip(rest);
        let c = s[0];
        let t = json_body(s);
        let p = json_piece(c);
        assert(t =~= p + json_body(rest));
        assert(s =~= seq![c] + rest);
        if c == '\\' || c == '"' || c == '\n' || c == '\r' || c == '\t' {
            assert(t.subrange(2, t.len() as int) =~= json_body(rest));
        } else if is_control(c) {
            lemma_control_escape(c);
            let hx = hex_fixed((c as u32) as nat, 4);
            assert(t.subrange(2, 6) =~= hx);
            assert(t[2] == hx[0] && t[3] == hx[1] && t[4] == hx[2] && t[5] == hx[3]);
            assert(t.subrange(6, t.len() as int) =~= json_body(rest));
        } else {
            assert(t.drop_first() =~= json_body(rest));
        }
    }
}

// ---------------------------------------------------------------------------
// Turso/libSQL HTTP pipeline
// ---------------------------------------------------------------------------

pub open spec fn with_pipeline_path(base: Seq<char>) -> Seq<char> {
    if ends_with(base, "/v2/pipeline"@) {
        base
    } else {
        base + "/v2/pipeline"@
    }
}

/// The `/v2/pipeline` endpoint for a Turso/libSQL database URL: `libsql://`
/// maps to `https://`, `https://` and `http://` stay.
pub open spec fn turso_url_spec(url: Seq<char>) -> Result<Seq<char>, Seq<char>> {
    let t = trim_end_set(trim(url), CharSet::Slash);
    if t.len() == 0 {
        Err("TURSO_DATABASE_URL cannot be empty"@)
    } else if starts_with(t, "libsql://"@) {
        Ok(with_pipeline_path("https://"@ + t.subrange("libsql://"@.len() as int, t.len() as int)))
    } else if starts_with(t, "https://"@) || starts_with(t, "http://"@) {
        Ok(with_pipeline_path(t))
    } else {
        Err("TURSO_DATABASE_URL must start with libsql://, https://, or http://"@)
    }
}

pub open spec fn string_result_view(r: Result<String, String>) -> Result<Seq<char>, Seq<char>> {
    match r {
        Ok(s) => Ok(s@),
        Err(e) => Err(e@),
    }
}

fn chars_string(v: &Vec<char>) -> (s: String)
    ensures
        s@ == v@,
{
    crate::text::string_of_all(v)
}

/// The HTTP pipeline endpoint of a Turso/libSQL database URL.
pub fn turso_pipeline_url(database_url: &str) -> (r: Result<String, String>)
    ensures
        string_result_view(r) == turso_url_spec(database_url@),
{
    let v = to_chars(database_url);
    let (a, b) = crate::text::trim_bounds(&v, 0, v.len(), CharSet::Whitespace);
    let mut t: Vec<char> = Vec::new();
    let mut k = a;
    while k < b
        invariant
            a <= k <= b <= v@.len(),
            t@ == v@.subrange(a as int, k as int),
        decreases b - k,
    {
        t.push(v[k]);
        proof {
            assert(v@.subrange(a as int, k + 1) =~= v@.subrange(a as int, k as int).push(v@[k as int]));
        }
        k = k + 1;
    }
    let e = crate::text::skip_end_exec(&t, CharSet::Slash, t.len());
    proof {
        assert(v@.subrange(0, v@.len() as int) =~= v@);
        crate::text::lemma_skip_end_bounds(t@, CharSet::Slash, t@.len() as int);
    }
    t.truncate(e);
    let ghost tt = trim_end_set(trim(database_url@), CharSet::Slash);
    proof {
        assert(t@ =~= tt);
    }
    if t.len() == 0 {
        return Err(copy_string("TURSO_DATABASE_URL cannot be empty"));
    }
    let libsql = to_chars("libsql://");
    let base: Vec<char> = if crate::text::starts_with_exec(&t, &libsql) {
        let mut b2 = to_chars("https://");
        let mut j = libsql.len();
        while j < t.len()
            invariant
                libsql@.len() <= j <= t@.len(),
                b2@ == "https://"@ + t@.subrange(libsql@.len() as int, j as int),
            decreases t@.len() - j,
        {
            b2.push(t[j]);
            proof {
                assert(t@.subrange(libsql@.len() as int, j + 1) =~= t@.subrange(
                    libsql@.len() as int,
                    j as int,
                ).push(t@[j as int]));
                assert(b2@ =~= "https://"@ + t@.subrange(libsql@.len() as int, j + 1));
            }
            j = j + 1;
        }
        b2
    } else if crate::text::starts_with_exec(&t, &to_chars("https://"))
        || crate::text::starts_with_exec(&t, &to_chars("http://")) {
        t
    } else {
        return Err(
            copy_string("TURSO_DATABASE_URL must start with libsql://, https://, or http://"),
        );
    };
    let mut out = chars_string(&base);
    if !crate::text::ends_with_exec(&base, &to_chars("/v2/pipeline")) {
        push_str(&mut out, "/v2/pipeline");
    }
    Ok(out)
}

pub open spec fn request_item(sql: Seq<char>) -> Seq<char> {
    "{\"type\":\"execute\",\"stmt\":{\"sql\":"@ + json_string_spec(sql) + "}}"@
}

/// The items joined with `sep` between each two.
pub open spec fn join_with(items: Seq<Seq<char>>, sep: Seq<char>) -> Seq<char>
    decreases items.len(),
{
    if items.len() == 0 {
        seq![]
    } else if items.len() == 1 {
        items[0]
    } else {
        join_with(items.drop_last(), sep) + sep + items.last()
    }
}

/// The body of a `/v2/pipeline` request that executes each statement in turn.
pub open spec fn pipeline_request_spec(stmts: Seq<Seq<char>>) -> Seq<char> {
    "{\"requests\":["@ + join_with(Seq::new(stmts.len(), |i: int| request_item(stmts[i])), ","@)
        + "]}"@
}

/// The JSON body of a Turso/libSQL `/v2/pipeline` request executing `statements`.
pub fn turso_pipeline_request_json(statements: &[String]) -> (r: String)
    ensures
        r@ == pipeline_request_spec(string_views(statements@)),
{
    let ghost items = Seq::new(statements@.len(), |i: int| request_item(statements@[i]@));
    let mut out = copy_string("{\"requests\":[");
    let ghost start = out@;
    let mut i: usize = 0;
    proof {
        assert(items.subrange(0, 0) =~= Seq::<Seq<char>>::empty());
        assert(out@ =~= start + join_with(items.subrange(0, 0), ","@));
    }
    while i < statements.len()
        invariant
            i <= statements@.len(),
            items == Seq::new(statements@.len(), |i: int| request_item(statements@[i]@)),
            start == "{\"requests\":["@,
            out@ == start + join_with(items.subrange(0, i as int), ","@),
        decreases statements@.len() - i,
    {
        if i > 0 {
            push_char(&mut out, ',');
        }
        push_str(&mut out, "{\"type\":\"execute\",\"stmt\":{\"sql\":");
        let lit = json_string(statements[i].as_str());
        push_str(&mut out, lit.as_str());
        push_str(&mut out, "}}");
        proof {
            let sub = items.subrange(0, i + 1);
            assert(sub.drop_last() =~= items.subrange(0, i as int));
            assert(sub.last() == request_item(statements@[i as int]@));
            reveal_strlit(",");
            if i == 0 {
                assert(out@ =~= start + join_with(sub, ","@));
            } else {
                assert(out@ =~= start + join_with(sub, ","@));
            }
        }
        i = i + 1;
    }
    push_str(&mut out, "]}");
    proof {
        assert(items.subrange(0, statements@.len() as int) =~= items);
        assert(string_views(statements@).len() == statements@.len());
        assert(Seq::new(string_views(statements@).len(), |i: int| request_item(string_views(statements@)[i])) =~= items);
    }
    out
}

// ---------------------------------------------------------------------------
// Schema scripts
// ---------------------------------------------------------------------------

/// The state of the schema splitter: the statement being gathered and the
/// statements already complete.
pub struct SchemaState {
    pub current: Seq<char>,
    pub out: Seq<Seq<char>>,
}

pub open spec fn schema_step(st: SchemaState, line: Seq<char>) -> SchemaState {
    let t = trim(line);
    if t.len() == 0 || starts_with(t, "--"@) {
        st
    } else {
        let cur = if st.current.len() > 0 {
            st.current + seq!['\n'] + line
        } else {
            line
        };
        if ends_with(t, ";"@) {
            SchemaState { current: seq![], out: st.out.push(trim_end_set(trim(cur), CharSet::Semicolon)) }
        } else {
            SchemaState { current: cur, out: st.out }
        }
    }
}

pub open spec fn schema_fold(ls: Seq<Seq<char>>) -> SchemaState
    decreases ls.len(),
{
    if ls.len() == 0 {
        SchemaState { current: seq![], out: seq![] }
    } else {
        schema_step(schema_fold(ls.drop_last()), ls.last())
    }
}

/// The statements of a SQL script: blank lines and `--` comment lines are
/// skipped, a statement runs until a line ending in `;`, and the `;` is
/// dropped; unterminated text at the end is one more statement.
pub open spec fn schema_statements_spec(schema: Seq<char>) -> Seq<Seq<char>> {
    let st = schema_fold(lines(schema));
    if trim(st.current).len() > 0 {
        st.out.push(trim(st.current))
    } else {
        st.out
    }
}

/// The last character of `s` that is not white space is no `;`.
pub open spec fn last_visible_not_semicolon(s: Seq<char>) -> bool {
    forall|k: int|
        #![trigger s[k]]
        0 <= k < s.len() && !crate::text::is_ws(s[k]) && (forall|k2: int|
            k < k2 < s.len() ==> crate::text::is_ws(#[trigger] s[k2])) ==> s[k] != ';'
}

/// The last character of a trimmed non-blank text is the text's last
/// character that is not white space.
proof fn lemma_trim_last(s: Seq<char>) -> (m: int)
    requires
        trim(s).len() > 0,
    ensures
        0 <= m < s.len(),
        !crate::text::is_ws(s[m]),
        forall|k2: int| m < k2 < s.len() ==> crate::text::is_ws(#[trigger] s[k2]),
        trim(s).last() == s[m],
{
    let a = crate::text::skip_start(s, CharSet::Whitespace, 0);
    crate::text::lemma_skip_start_bounds(s, CharSet::Whitespace, 0);
    let u = s.subrange(a, s.len() as int);
    let e = crate::text::skip_end(u, CharSet::Whitespace, u.len() as int);
    crate::text::lemma_skip_end_bounds(u, CharSet::Whitespace, u.len() as int);
    assert(trim(s) == u.subrange(0, e));
    let m = a + e - 1;
    assert(u[e - 1] == s[m]);
    assert forall|k2: int| m < k2 < s.len() implies crate::text::is_ws(#[trigger] s[k2]) by {
        assert(u[k2 - a] == s[k2]);
        assert(crate::text::in_set(CharSet::Whitespace, u[k2 - a]));
    }
    m
}

proof fn lemma_line_ends_visible(line: Seq<char>)
    requires
        trim(line).len() > 0,
        !ends_with(trim(line), ";"@),
    ensures
        last_visible_not_semicolon(line),
{
    reveal_strlit(";");
    let m = lemma_trim_last(line);
    let t = trim(line);
    assert(t.subrange(t.len() - 1, t.len() as int) =~= seq![t.last()]);
    assert forall|k: int|
        #![trigger line[k]]
        0 <= k < line.len() && !crate::text::is_ws(line[k]) && (forall|k2: int|
            k < k2 < line.len() ==> crate::text::is_ws(#[trigger] line[k2])) implies line[k] != ';' by {
        if k < m {
            assert(crate::text::is_ws(line[m]));
        } else if k > m {
        } else if line[k] == ';' {
            assert(t.subrange(t.len() - 1, t.len() as int) =~= ";"@);
        }
    }
}

proof fn lemma_join_ends_visible(cur: Seq<char>, line: Seq<char>)
    requires
        trim(line).len() > 0,
        last_visible_not_semicolon(line),
    ensures
        last_visible_not_semicolon(cur + seq!['\n'] + line),
{
    let s = cur + seq!['\n'] + line;
    let m = lemma_trim_last(line);
    let off = cur.len() + 1;
    assert forall|k: int|
        #![trigger s[k]]
        0 <= k < s.len() && !crate::text::is_ws(s[k]) && (forall|k2: int|
            k < k2 < s.len() ==> crate::text::is_ws(#[trigger] s[k2])) implies s[k] != ';' by {
        if k < off {
            assert(s[off + m] == line[m]);
        } else {
            assert(s[k] == line[k - off]);
            assert forall|k2: int| k - off < k2 < line.len() implies crate::text::is_ws(
                #[trigger] line[k2],
            ) by {
                assert(s[k2 + off] == line[k2]);
            }
        }
    }
}

proof fn lemma_schema_fold_no_semicolon(ls: Seq<Seq<char>>)
    ensures
        schema_fold(ls).current.len() == 0 || (trim(schema_fold(ls).current).len() > 0
            && last_visible_not_semicolon(schema_fold(ls).current)),
        forall|i: int|
            0 <= i < schema_fold(ls).out.len() ==> !ends_with(#[trigger] schema_fold(ls).out[i], ";"@),
    decreases ls.len(),
{
    reveal_strlit(";");
    if ls.len() > 0 {
        lemma_schema_fold_no_semicolon(ls.drop_last());
        let st = schema_fold(ls.drop_last());
        let line = ls.last();
        let t = trim(line);
        if !(t.len() == 0 || starts_with(t, "--"@)) {
            let cur = if st.current.len() > 0 {
                st.current + seq!['\n'] + line
            } else {
                line
            };
            if ends_with(t, ";"@) {
                let x = trim(cur);
                let y = trim_end_set(x, CharSet::Semicolon);
                crate::text::lemma_skip_end_bounds(x, CharSet::Semicolon, x.len() as int);
                if ends_with(y, ";"@) {
                    assert(y.subrange(y.len() - 1, y.len() as int)[0] == y[y.len() - 1]);
                    assert(y[y.len() - 1] == x[y.len() - 1]);
                }
                let out2 = st.out.push(y);
                assert forall|i: int| 0 <= i < out2.len() implies !ends_with(#[trigger] out2[i], ";"@) by {
                    if i < st.out.len() {
                        assert(out2[i] == st.out[i]);
                    }
                }
            } else {
                lemma_line_ends_visible(line);
                if st.current.len() > 0 {
                    lemma_join_ends_visible(st.current, line);
                    let m = lemma_trim_last(line);
                    let off = st.current.len() + 1;
                    assert(cur[off + m] == line[m]);
                    assert(trim(cur).len() > 0) by {
                        let a = crate::text::skip_start(cur, CharSet::Whitespace, 0);
                        crate::text::lemma_skip_start_bounds(cur, CharSet::Whitespace, 0);
                        let u = cur.subrange(a, cur.len() as int);
                        crate::text::lemma_skip_end_bounds(u, CharSet::Whitespace, u.len() as int);
                        if a > off + m {
                            assert(crate::text::in_set(CharSet::Whitespace, cur[off + m]));
                        }
                        assert(!crate::text::in_set(CharSet::Whitespace, u[off + m - a]));
                    }
                }
            }
        }
    }
}

/// No statement split from a schema script ends with `;`: the terminator is
/// dropped from every statement.
pub proof fn lemma_schema_statements_no_semicolon(schema: Seq<char>)
    ensures
        forall|i: int|
            0 <= i < schema_statements_spec(schema).len() ==> !ends_with(
                #[trigger] schema_statements_spec(schema)[i],
                ";"@,
            ),
{
    reveal_strlit(";");
    let st = schema_fold(lines(schema));
    lemma_schema_fold_no_semicolon(lines(schema));
    let r = schema_statements_spec(schema);
    if trim(st.current).len() > 0 {
        let m = lemma_trim_last(st.current);
        let x = trim(st.current);
        assert forall|i: int| 0 <= i < r.len() implies !ends_with(#[trigger] r[i], ";"@) by {
            if i < st.out.len() {
                assert(r[i] == st.out[i]);
            } else {
                assert(r[i] == x);
                if ends_with(x, ";"@) {
                    assert(x.subrange(x.len() - 1, x.len() as int)[0] == x.last());
                }
            }
        }
    }
}

fn trimmed_vec(v: &Vec<char>) -> (r: Vec<char>)
    ensures
        r@ == trim(v@),
{
    let (a, b) = crate::text::trim_bounds(v, 0, v.len(), CharSet::Whitespace);
    let mut r: Vec<char> = Vec::new();
    let mut k = a;
    while k < b
        invariant
            a <= k <= b <= v@.len(),
            r@ == v@.subrange(a as int, k as int),
        decreases b - k,
    {
        r.push(v[k]);
        proof {
            assert(v@.subrange(a as int, k + 1) =~= v@.subrange(a as int, k as int).push(v@[k as int]));
        }
        k = k + 1;
    }
    proof {
        assert(v@.subrange(0, v@.len() as int) =~= v@);
    }
    r
}

/// The statements of a SQL schema script.
pub fn schema_statements_from(schema: &str) -> (r: Vec<String>)
    ensures
        string_views(r@) == schema_statements_spec(schema@),
{
    let sv = to_chars(schema);
    let ls = crate::text::lines_exec(&sv);
    let dashes = to_chars("--");
    let semi = to_chars(";");
    let mut statements: Vec<String> = Vec::new();
    let mut current: Vec<char> = Vec::new();
    let mut i: usize = 0;
    proof {
        assert(crate::text::views(ls@).subrange(0, 0) =~= Seq::<Seq<char>>::empty());
        assert(string_views(statements@) =~= Seq::<Seq<char>>::empty());
    }
    while i < ls.len()
        invariant
            i <= ls@.len(),
            dashes@ == "--"@,
            semi@ == ";"@,
            schema_fold(crate::text::views(ls@).subrange(0, i as int)) == (SchemaState {
                current: current@,
                out: string_views(statements@),
            }),
        decreases ls@.len() - i,
    {
        let line = &ls[i];
        proof {
            let sub = crate::text::views(ls@).subrange(0, i + 1);
            assert(sub.drop_last() =~= crate::text::views(ls@).subrange(0, i as int));
            assert(sub.last() == line@);
        }
        let t = trimmed_vec(line);
        let ghost prev_current = current@;
        if t.len() == 0 || crate::text::starts_with_exec(&t, &dashes) {
        } else {
            if current.len() > 0 {
                current.push('\n');
            }
            crate::text::extend_chars(&mut current, line);
            proof {
                if prev_current.len() > 0 {
                    assert(current@ =~= prev_current + seq!['\n'] + line@);
                } else {
                    assert(current@ =~= line@);
                }
            }
            if crate::text::ends_with_exec(&t, &semi) {
                let ct = trimmed_vec(&current);
                let e = crate::text::skip_end_exec(&ct, CharSet::Semicolon, ct.len());
                proof {
                    crate::text::lemma_skip_end_bounds(ct@, CharSet::Semicolon, ct@.len() as int);
                }
                let stmt = crate::text::string_of(&ct, 0, e);
                let ghost old_statements = statements@;
                statements.push(stmt);
                current = Vec::new();
                proof {
                    crate::text::lemma_skip_end_bounds(ct@, CharSet::Semicolon, ct@.len() as int);
                    assert(string_views(statements@) =~= string_views(old_statements).push(stmt@));
                    assert(current@ =~= Seq::<char>::empty());
                }
            }
        }
        i = i + 1;
    }
    let ct = trimmed_vec(&current);
    if ct.len() > 0 {
        let ghost old_statements = statements@;
        let stmt = crate::text::string_of_all(&ct);
        statements.push(stmt);
        proof {
            assert(string_views(statements@) =~= string_views(old_statements).push(stmt@));
        }
    }
    proof {
        assert(crate::text::views(ls@).subrange(0, ls@.len() as int) =~= crate::text::views(ls@));
    }
    statements
}

/// A URL that starts with `h` and ends with the pipeline path is its own
/// endpoint once it is an `https://` or `http://` URL.
proof fn lemma_endpoint_fixed(w: Seq<char>)
    requires
        starts_with(w, "https://"@) || starts_with(w, "http://"@),
        ends_with(w, "/v2/pipeline"@),
    ensures
        turso_url_spec(w) == Ok::<Seq<char>, Seq<char>>(w),
{
    reveal_strlit("https://");
    reveal_strlit("http://");
    reveal_strlit("libsql://");
    reveal_strlit("/v2/pipeline");
    assert(w[0] == 'h') by {
        if starts_with(w, "https://"@) {
            assert(w.subrange(0, 8)[0] == w[0]);
        } else {
            assert(w.subrange(0, 7)[0] == w[0]);
        }
    }
    assert(w.last() == 'e') by {
        let n = w.len();
        assert(w.subrange(n - 12, n as int)[11] == w[n - 1]);
    }
    assert(crate::text::skip_start(w, CharSet::Whitespace, 0) == 0);
    assert(crate::text::trim_start_set(w, CharSet::Whitespace) =~= w);
    assert(crate::text::skip_end(w, CharSet::Whitespace, w.len() as int) == w.len());
    assert(trim(w) =~= w);
    assert(crate::text::skip_end(w, CharSet::Slash, w.len() as int) == w.len());
    assert(trim_end_set(w, CharSet::Slash) =~= w);
    assert(!starts_with(w, "libsql://"@)) by {
        if starts_with(w, "libsql://"@) {
            assert(w.subrange(0, 9)[0] == w[0]);
        }
    }
}

/// The endpoint of an endpoint is itself: feeding what `turso_pipeline_url`
/// returns back into it gives the same URL.
pub proof fn lemma_turso_url_idempotent(url: Seq<char>)
    ensures
        turso_url_spec(url) matches Ok(v) ==> turso_url_spec(v) == Ok::<Seq<char>, Seq<char>>(v),
{
    reveal_strlit("https://");
    reveal_strlit("http://");
    reveal_strlit("libsql://");
    reveal_strlit("/v2/pipeline");
    let t = trim_end_set(trim(url), CharSet::Slash);
    if t.len() > 0 {
        let b = if starts_with(t, "libsql://"@) {
            "https://"@ + t.subrange("libsql://"@.len() as int, t.len() as int)
        } else {
            t
        };
        if starts_with(t, "libsql://"@) || starts_with(t, "https://"@) || starts_with(t, "http://"@) {
            if starts_with(t, "libsql://"@) {
                assert(b.subrange(0, 8) =~= "https://"@);
            }
            let v = with_pipeline_path(b);
            if !ends_with(b, "/v2/pipeline"@) {
                assert(v.subrange(v.len() - 12, v.len() as int) =~= "/v2/pipeline"@);
                if starts_with(b, "https://"@) {
                    assert(v.subrange(0, 8) =~= b.subrange(0, 8));
                } else {
                    assert(v.subrange(0, 7) =~= b.subrange(0, 7));
                }
            }
            lemma_endpoint_fixed(v);
        }
    }
}

} // verus!
