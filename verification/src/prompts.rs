//! The choices and answers of the interactive `init` command, and the
//! configurations built from them.

use vstd::prelude::*;
use crate::json::{JsonValue, JsonView, json_seq_view, lemma_json_entries_view, lemma_json_seq_view};
use crate::models::{BootstrapProviderConfig, BootstrapView, SourceConfig, SourceView, opt_bootstrap_view};
use crate::reaction::{ReactionConfig, ReactionView, strings_view};
use crate::resolve::{number_at_most, parse_number};
use crate::state_store::StateStoreConfig;
use crate::text::{chars_of, owned, string_of};
use crate::validation::{decimal, decimal_text};

verus! {

/// Server settings collected from user prompts.
pub struct ServerSettings {
    pub host: String,
    pub port: u16,
    pub log_level: String,
    pub persist_index: bool,
    pub state_store: Option<StateStoreConfig>,
}

/// Source type selection options.
#[derive(Debug, Clone, Copy, PartialEq, Eq, Structural)]
pub enum SourceType {
    Postgres,
    Http,
    Grpc,
    Mock,
}

impl SourceType {
    /// How the option is shown.
    pub fn description(&self) -> (r: &'static str)
        ensures
            r@ == match self {
                SourceType::Postgres => "PostgreSQL - CDC from PostgreSQL database"@,
                SourceType::Http => "HTTP - Receive events via HTTP endpoint"@,
                SourceType::Grpc => "gRPC - Stream events via gRPC"@,
                SourceType::Mock => "Mock - Generate test data (for development)"@,
            },
    {
        match self {
            SourceType::Postgres => "PostgreSQL - CDC from PostgreSQL database",
            SourceType::Http => "HTTP - Receive events via HTTP endpoint",
            SourceType::Grpc => "gRPC - Stream events via gRPC",
            SourceType::Mock => "Mock - Generate test data (for development)",
        }
    }
}

/// Bootstrap provider type selection options.
#[derive(Debug, Clone, Copy, PartialEq, Eq, Structural)]
pub enum BootstrapType {
    NoBootstrap,
    Postgres,
    ScriptFile,
}

impl BootstrapType {
    /// How the option is shown.
    pub fn description(&self) -> (r: &'static str)
        ensures
            r@ == match self {
                BootstrapType::NoBootstrap => "None - No initial data loading"@,
                BootstrapType::Postgres => "PostgreSQL - Load initial data from PostgreSQL"@,
                BootstrapType::ScriptFile => "Script File - Load from JSONL file"@,
            },
    {
        match self {
            BootstrapType::NoBootstrap => "None - No initial data loading",
            BootstrapType::Postgres => "PostgreSQL - Load initial data from PostgreSQL",
            BootstrapType::ScriptFile => "Script File - Load from JSONL file",
        }
    }
}

/// Reaction type selection options.
#[derive(Debug, Clone, Copy, PartialEq, Eq, Structural)]
pub enum ReactionType {
    Log,
    Http,
    Sse,
    Grpc,
}

impl ReactionType {
    /// How the option is shown.
    pub fn description(&self) -> (r: &'static str)
        ensures
            r@ == match self {
                ReactionType::Log => "Log - Write query results to console"@,
                ReactionType::Http => "HTTP Webhook - POST results to external URL"@,
                ReactionType::Sse => "SSE - Server-Sent Events endpoint"@,
                ReactionType::Grpc => "gRPC - Stream results via gRPC"@,
            },
    {
        match self {
            ReactionType::Log => "Log - Write query results to console",
            ReactionType::Http => "HTTP Webhook - POST results to external URL",
            ReactionType::Sse => "SSE - Server-Sent Events endpoint",
            ReactionType::Grpc => "gRPC - Stream results via gRPC",
        }
    }
}

/// State store type selection options.
#[derive(Debug, Clone, Copy, PartialEq, Eq, Structural)]
pub enum StateStoreType {
    InMemory,
    Redb,
}

impl StateStoreType {
    /// How the option is shown.
    pub fn description(&self) -> (r: &'static str)
        ensures
            r@ == match self {
                StateStoreType::InMemory => "None - In-memory state (lost on restart)"@,
                StateStoreType::Redb => "REDB - Persistent file-based state"@,
            },
    {
        match self {
            StateStoreType::InMemory => "None - In-memory state (lost on restart)",
            StateStoreType::Redb => "REDB - Persistent file-based state",
        }
    }
}

// ---------------------------------------------------------------------------
// Answers
// ---------------------------------------------------------------------------

/// A numeric answer: the number typed, or `default` when the text is not a
/// number of at most `max`.
pub open spec fn number_or(text: Seq<char>, max: nat, default: nat) -> nat {
    match number_at_most(text, max) {
        Some(n) => n,
        None => default,
    }
}

/// A port answer, or `default` when it is not a port number.
pub fn port_or(text: &str, default: u16) -> (r: u16)
    ensures
        r as nat == number_or(text@, 65535, default as nat),
{
    match parse_number(text, 65535) {
        Some(n) => n as u16,
        None => default,
    }
}

/// A millisecond answer, or `default` when it is not a number.
pub fn millis_or(text: &str, default: u64) -> (r: u64)
    ensures
        r as nat == number_or(text@, u64::MAX as nat, default as nat),
{
    match parse_number(text, u64::MAX) {
        Some(n) => n,
        None => default,
    }
}

/// How many sensors the mock source simulates: the number typed (or 5 when
/// it is not a number), kept between 1 and 100.
pub open spec fn sensor_count_spec(text: Seq<char>) -> nat {
    let n = number_or(text, u32::MAX as nat, 5);
    if n < 1 {
        1
    } else if n > 100 {
        100
    } else {
        n
    }
}

/// How many sensors the mock source simulates.
pub fn sensor_count(text: &str) -> (r: u32)
    ensures
        r as nat == sensor_count_spec(text@),
{
    let n: u64 = match parse_number(text, 4294967295) {
        Some(n) => n,
        None => 5,
    };
    if n < 1 {
        1
    } else if n > 100 {
        100
    } else {
        n as u32
    }
}

/// Whitespace as `char::is_whitespace` defines it (the Unicode White_Space
/// property).
pub open spec fn is_space(c: char) -> bool {
    ('\u{9}' <= c <= '\u{d}') || c == ' ' || c == '\u{85}' || c == '\u{a0}' || c == '\u{1680}' || ('\u{2000}' <= c
        <= '\u{200a}') || c == '\u{2028}' || c == '\u{2029}' || c == '\u{202f}' || c == '\u{205f}' || c == '\u{3000}'
}

/// Whether `c` is whitespace.
pub fn space(c: char) -> (r: bool)
    ensures
        r == is_space(c),
{
    ('\u{9}' <= c && c <= '\u{d}') || c == ' ' || c == '\u{85}' || c == '\u{a0}' || c == '\u{1680}' || ('\u{2000}'
        <= c && c <= '\u{200a}') || c == '\u{2028}' || c == '\u{2029}' || c == '\u{202f}' || c == '\u{205f}' || c
        == '\u{3000}'
}

/// `s` without leading whitespace.
pub open spec fn trim_start(s: Seq<char>) -> Seq<char>
    decreases s.len(),
{
    if s.len() > 0 && is_space(s[0]) {
        trim_start(s.drop_first())
    } else {
        s
    }
}

/// `s` without trailing whitespace.
pub open spec fn trim_end(s: Seq<char>) -> Seq<char>
    decreases s.len(),
{
    if s.len() > 0 && is_space(s.last()) {
        trim_end(s.drop_last())
    } else {
        s
    }
}

/// `s` without leading and trailing whitespace.
pub open spec fn trim(s: Seq<char>) -> Seq<char> {
    trim_end(trim_start(s))
}

/// The comma-separated pieces of `s` (as `str::split(',')` gives them).
pub open spec fn comma_pieces(s: Seq<char>) -> Seq<Seq<char>>
    decreases s.len(),
{
    if s.len() == 0 {
        seq![Seq::empty()]
    } else {
        let rest = comma_pieces(s.drop_last());
        if s.last() == ',' {
            rest.push(Seq::empty())
        } else {
            rest.update(rest.len() - 1, rest.last().push(s.last()))
        }
    }
}

/// The non-empty pieces among the first `n`, trimmed.
pub open spec fn nonempty_trimmed(pieces: Seq<Seq<char>>, n: int) -> Seq<Seq<char>>
    decreases n,
{
    if n <= 0 || n > pieces.len() {
        Seq::empty()
    } else if trim(pieces[n - 1]).len() > 0 {
        nonempty_trimmed(pieces, n - 1).push(trim(pieces[n - 1]))
    } else {
        nonempty_trimmed(pieces, n - 1)
    }
}

/// The items of a comma-separated answer: each piece trimmed, empty ones
/// left out.
pub open spec fn list_items(s: Seq<char>) -> Seq<Seq<char>> {
    nonempty_trimmed(comma_pieces(s), comma_pieces(s).len() as int)
}

/// `comma_pieces` is never empty.
proof fn lemma_comma_pieces_len(s: Seq<char>)
    ensures
        comma_pieces(s).len() >= 1,
    decreases s.len(),
{
    if s.len() > 0 {
        lemma_comma_pieces_len(s.drop_last());
    }
}

/// `t` trimmed.
fn trimmed(t: &Vec<char>) -> (r: String)
    ensures
        r@ == trim(t@),
{
    let mut a: usize = 0;
    let n = t.len();
    assert(trim_start(t@.subrange(0, n as int)) == trim_start(t@)) by {
        assert(t@.subrange(0, n as int) =~= t@);
    }
    while a < n && space(t[a])
        invariant
            a <= n,
            n == t@.len(),
            trim_start(t@) == trim_start(t@.subrange(a as int, n as int)),
        decreases n - a,
    {
        assert(t@.subrange(a as int, n as int).drop_first() =~= t@.subrange(a + 1, n as int));
        a = a + 1;
    }
    assert(trim_start(t@) == t@.subrange(a as int, n as int));
    let mut b: usize = n;
    while b > a && space(t[b - 1])
        invariant
            a <= b <= n,
            n == t@.len(),
            trim_end(t@.subrange(a as int, n as int)) == trim_end(t@.subrange(a as int, b as int)),
        decreases b - a,
    {
        assert(t@.subrange(a as int, b as int).drop_last() =~= t@.subrange(a as int, b - 1));
        b = b - 1;
    }
    assert(trim_end(t@.subrange(a as int, b as int)) == t@.subrange(a as int, b as int));
    let mut out: Vec<char> = Vec::new();
    let mut i = a;
    while i < b
        invariant
            a <= i <= b <= n,
            n == t@.len(),
            out@ == t@.subrange(a as int, i as int),
        decreases b - i,
    {
        out.push(t[i]);
        i = i + 1;
        assert(out@ =~= t@.subrange(a as int, i as int));
    }
    string_of(&out)
}

/// The items of a comma-separated answer.
pub fn split_list(text: &str) -> (r: Vec<String>)
    ensures
        strings_view(r@) == list_items(text@),
{
    let t = chars_of(text);
    let n = t.len();
    let mut out: Vec<String> = Vec::new();
    let mut cur: Vec<char> = Vec::new();
    let mut i: usize = 0;
    proof {
        lemma_comma_pieces_len(t@.subrange(0, 0));
        assert(t@.subrange(0, 0) =~= Seq::<char>::empty());
        assert(strings_view(out@) =~= Seq::<Seq<char>>::empty());
    }
    while i < n
        invariant
            n == t@.len(),
            i <= n,
            comma_pieces(t@.subrange(0, i as int)).len() >= 1,
            cur@ == comma_pieces(t@.subrange(0, i as int)).last(),
            strings_view(out@) == nonempty_trimmed(
                comma_pieces(t@.subrange(0, i as int)),
                comma_pieces(t@.subrange(0, i as int)).len() - 1,
            ),
        decreases n - i,
    {
        let ghost pre = t@.subrange(0, i as int);
        let ghost pieces = comma_pieces(pre);
        let ghost next = t@.subrange(0, i + 1);
        assert(next.drop_last() =~= pre);
        assert(next.last() == t@[i as int]);
        if t[i] == ',' {
            let piece = trimmed(&cur);
            if piece.unicode_len() > 0 {
                out.push(piece);
            }
            cur = Vec::new();
            proof {
                let np = comma_pieces(next);
                assert(np == pieces.push(Seq::empty()));
                assert(np[pieces.len() - 1] == pieces[pieces.len() - 1]);
                assert(nonempty_trimmed(np, pieces.len() as int) =~= nonempty_trimmed(pieces, pieces.len() as int)) by {
                    lemma_nonempty_trimmed_prefix(pieces, np, pieces.len() as int);
                }
                assert(nonempty_trimmed(np, np.len() - 1) =~= nonempty_trimmed(pieces, pieces.len() as int));
                assert(strings_view(out@) =~= nonempty_trimmed(np, np.len() - 1));
                assert(cur@ =~= np.last());
            }
        } else {
            cur.push(t[i]);
            proof {
                let np = comma_pieces(next);
                assert(np == pieces.update(pieces.len() - 1, pieces.last().push(t@[i as int])));
                lemma_nonempty_trimmed_prefix(pieces, np, pieces.len() - 1);
            }
        }
        i = i + 1;
    }
    let piece = trimmed(&cur);
    if piece.unicode_len() > 0 {
        out.push(piece);
    }
    proof {
        assert(t@.subrange(0, n as int) =~= t@);
        let pieces = comma_pieces(t@);
        assert(strings_view(out@) =~= nonempty_trimmed(pieces, pieces.len() as int));
    }
    out
}

/// The non-empty trimmed pieces of a prefix depend only on that prefix.
proof fn lemma_nonempty_trimmed_prefix(a: Seq<Seq<char>>, b: Seq<Seq<char>>, n: int)
    requires
        0 <= n <= a.len(),
        n <= b.len(),
        forall|i: int| 0 <= i < n ==> a[i] == b[i],
    ensures
        nonempty_trimmed(a, n) == nonempty_trimmed(b, n),
    decreases n,
{
    if n > 0 {
        lemma_nonempty_trimmed_prefix(a, b, n - 1);
    }
}

// ---------------------------------------------------------------------------
// Configurations built from answers
// ---------------------------------------------------------------------------

/// A JSON number.
pub open spec fn jnum(n: nat) -> JsonView {
    JsonView::Number(decimal_text(n))
}

/// A JSON array of strings.
pub open spec fn jstrings(s: Seq<Seq<char>>) -> JsonView {
    JsonView::Array(s.map_values(|x: Seq<char>| JsonView::String(x)))
}

/// A JSON number value.
fn number(n: u64) -> (r: JsonValue)
    ensures
        r@ == jnum(n as nat),
{
    JsonValue::Number(decimal(n))
}

/// A JSON string value.
fn text(s: &str) -> (r: JsonValue)
    ensures
        r@ == JsonView::String(s@),
{
    JsonValue::String(owned(s))
}

/// A JSON object with the given entries.
fn object(entries: Vec<(String, JsonValue)>) -> (r: JsonValue)
    ensures
        r@ == JsonView::Object(crate::json::json_entries_view(entries@)),
{
    JsonValue::Object(entries)
}

/// A JSON array of copies of the given strings.
fn string_array(items: &Vec<String>) -> (r: JsonValue)
    ensures
        r@ == jstrings(strings_view(items@)),
{
    let mut out: Vec<JsonValue> = Vec::new();
    let mut i: usize = 0;
    while i < items.len()
        invariant
            i <= items.len(),
            out@.len() == i,
            forall|j: int| 0 <= j < i ==> (#[trigger] out@[j])@ == JsonView::String(items@[j]@),
        decreases items.len() - i,
    {
        out.push(JsonValue::String(items[i].clone()));
        i = i + 1;
    }
    proof {
        lemma_json_seq_view(out@);
        assert(json_seq_view(out@) =~= strings_view(items@).map_values(|x: Seq<char>| JsonView::String(x)));
    }
    JsonValue::Array(out)
}

/// The ScriptFile bootstrap provider reading the given file.
pub open spec fn scriptfile_bootstrap_spec(file_path: Seq<char>) -> BootstrapView {
    BootstrapView { kind: "scriptfile"@, config: JsonView::Object(seq![("filePaths"@, jstrings(seq![file_path]))]) }
}

/// The ScriptFile bootstrap provider reading the given file.
pub fn scriptfile_bootstrap(file_path: String) -> (r: BootstrapProviderConfig)
    ensures
        r@ == scriptfile_bootstrap_spec(file_path@),
{
    let ghost fp = file_path@;
    let mut files: Vec<String> = Vec::new();
    files.push(file_path);
    let paths = string_array(&files);
    let mut e: Vec<(String, JsonValue)> = Vec::new();
    e.push((owned("filePaths"), paths));
    proof {
        lemma_json_entries_view(e@);
        assert(strings_view(files@) =~= seq![fp]);
        assert(crate::json::json_entries_view(e@) =~= seq![("filePaths"@, jstrings(seq![fp]))]);
    }
    BootstrapProviderConfig { kind: owned("scriptfile"), config: object(e) }
}

/// The connection settings a PostgreSQL source and its bootstrap provider share.
pub open spec fn postgres_settings(
    host: Seq<char>,
    port: u16,
    database: Seq<char>,
    user: Seq<char>,
    password: Seq<char>,
    tables: Seq<Seq<char>>,
) -> Seq<(Seq<char>, JsonView)> {
    seq![
        ("host"@, JsonView::String(host)),
        ("port"@, jnum(port as nat)),
        ("database"@, JsonView::String(database)),
        ("user"@, JsonView::String(user)),
        ("password"@, JsonView::String(password)),
        ("tables"@, jstrings(tables)),
        ("slotName"@, JsonView::String("drasi_slot"@)),
        ("publicationName"@, JsonView::String("drasi_pub"@)),
        ("sslMode"@, JsonView::String("prefer"@)),
    ]
}

/// The connection settings of a PostgreSQL source.
fn postgres_entries(
    host: &str,
    port: u16,
    database: &str,
    user: &str,
    password: &str,
    tables: &Vec<String>,
) -> (r: Vec<(String, JsonValue)>)
    ensures
        crate::json::json_entries_view(r@) == postgres_settings(host@, port, database@, user@, password@, strings_view(tables@)),
{
    let mut e: Vec<(String, JsonValue)> = Vec::new();
    e.push((owned("host"), text(host)));
    e.push((owned("port"), number(port as u64)));
    e.push((owned("database"), text(database)));
    e.push((owned("user"), text(user)));
    e.push((owned("password"), text(password)));
    e.push((owned("tables"), string_array(tables)));
    e.push((owned("slotName"), text("drasi_slot")));
    e.push((owned("publicationName"), text("drasi_pub")));
    e.push((owned("sslMode"), text("prefer")));
    proof {
        lemma_json_entries_view(e@);
        assert(crate::json::json_entries_view(e@) =~= postgres_settings(host@, port, database@, user@, password@, strings_view(tables@)));
    }
    e
}

/// The PostgreSQL bootstrap provider for a PostgreSQL source's connection.
pub fn postgres_bootstrap(
    host: &str,
    port: u16,
    database: &str,
    user: &str,
    password: &str,
    tables: &Vec<String>,
) -> (r: BootstrapProviderConfig)
    ensures
        r@ == (BootstrapView {
            kind: "postgres"@,
            config: JsonView::Object(postgres_settings(host@, port, database@, user@, password@, strings_view(tables@))),
        }),
{
    let e = postgres_entries(host, port, database, user, password, tables);
    BootstrapProviderConfig { kind: owned("postgres"), config: object(e) }
}

/// The key columns of a table without a primary key, when any are given.
pub fn table_key_entry(table: &str, key_columns: &Vec<String>) -> (r: Option<JsonValue>)
    ensures
        r is None <==> key_columns@.len() == 0,
        r matches Some(v) ==> v@ == JsonView::Object(
            seq![("table"@, JsonView::String(table@)), ("keyColumns"@, jstrings(strings_view(key_columns@)))],
        ),
{
    if key_columns.len() == 0 {
        return None;
    }
    let mut e: Vec<(String, JsonValue)> = Vec::new();
    e.push((owned("table"), text(table)));
    e.push((owned("keyColumns"), string_array(key_columns)));
    proof {
        lemma_json_entries_view(e@);
        assert(crate::json::json_entries_view(e@) =~= seq![
            ("table"@, JsonView::String(table@)),
            ("keyColumns"@, jstrings(strings_view(key_columns@))),
        ]);
    }
    Some(object(e))
}

/// The source a PostgreSQL source's answers describe.
pub fn postgres_source(
    id: String,
    host: &str,
    port: u16,
    database: &str,
    user: &str,
    password: &str,
    tables: &Vec<String>,
    table_keys: Vec<JsonValue>,
    bootstrap_provider: Option<BootstrapProviderConfig>,
) -> (r: SourceConfig)
    ensures
        r@ == (SourceView {
            kind: "postgres"@,
            id: id@,
            auto_start: true,
            bootstrap_provider: opt_bootstrap_view(bootstrap_provider),
            config: JsonView::Object(
                postgres_settings(host@, port, database@, user@, password@, strings_view(tables@)).push(
                    ("tableKeys"@, JsonView::Array(json_seq_view(table_keys@))),
                ),
            ),
        }),
{
    let mut e = postgres_entries(host, port, database, user, password, tables);
    let ghost before = e@;
    e.push((owned("tableKeys"), JsonValue::Array(table_keys)));
    proof {
        lemma_json_entries_view(e@);
        lemma_json_entries_view(before);
        assert(crate::json::json_entries_view(e@) =~= crate::json::json_entries_view(before).push(
            ("tableKeys"@, JsonView::Array(json_seq_view(table_keys@))),
        ));
    }
    SourceConfig { kind: owned("postgres"), id, auto_start: true, bootstrap_provider, config: object(e) }
}

/// The listening settings of an HTTP or gRPC source.
pub open spec fn listen_settings(host: Seq<char>, port: u16, timeout_ms: nat) -> Seq<(Seq<char>, JsonView)> {
    seq![("host"@, JsonView::String(host)), ("port"@, jnum(port as nat)), ("timeoutMs"@, jnum(timeout_ms))]
}

/// The listening settings of an HTTP or gRPC source.
fn listen_entries(host: &str, port: u16, timeout_ms: u64) -> (r: JsonValue)
    ensures
        r@ == JsonView::Object(listen_settings(host@, port, timeout_ms as nat)),
{
    let mut e: Vec<(String, JsonValue)> = Vec::new();
    e.push((owned("host"), text(host)));
    e.push((owned("port"), number(port as u64)));
    e.push((owned("timeoutMs"), number(timeout_ms)));
    proof {
        lemma_json_entries_view(e@);
        assert(crate::json::json_entries_view(e@) =~= listen_settings(host@, port, timeout_ms as nat));
    }
    object(e)
}

/// The source an HTTP source's answers describe.
pub fn http_source(id: String, host: &str, port: u16, bootstrap_provider: Option<BootstrapProviderConfig>) -> (r: SourceConfig)
    ensures
        r@ == (SourceView {
            kind: "http"@,
            id: id@,
            auto_start: true,
            bootstrap_provider: opt_bootstrap_view(bootstrap_provider),
            config: JsonView::Object(listen_settings(host@, port, 10000)),
        }),
{
    SourceConfig {
        kind: owned("http"),
        id,
        auto_start: true,
        bootstrap_provider,
        config: listen_entries(host, port, 10000),
    }
}

/// The source a gRPC source's answers describe.
pub fn grpc_source(id: String, host: &str, port: u16, bootstrap_provider: Option<BootstrapProviderConfig>) -> (r: SourceConfig)
    ensures
        r@ == (SourceView {
            kind: "grpc"@,
            id: id@,
            auto_start: true,
            bootstrap_provider: opt_bootstrap_view(bootstrap_provider),
            config: JsonView::Object(listen_settings(host@, port, 5000)),
        }),
{
    SourceConfig {
        kind: owned("grpc"),
        id,
        auto_start: true,
        bootstrap_provider,
        config: listen_entries(host, port, 5000),
    }
}

/// The data a mock source generates: counters, sensor readings (with the
/// number of sensors answered), or generic data.
pub open spec fn mock_data_type_spec(selection: Seq<char>, sensor_count_text: Seq<char>) -> JsonView {
    if selection == "counter"@ {
        JsonView::Object(seq![("type"@, JsonView::String("counter"@))])
    } else if selection == "sensorReading"@ {
        JsonView::Object(
            seq![
                ("type"@, JsonView::String("sensorReading"@)),
                ("sensorCount"@, jnum(sensor_count_spec(sensor_count_text))),
            ],
        )
    } else {
        JsonView::Object(seq![("type"@, JsonView::String("generic"@))])
    }
}

/// The data a mock source generates.
pub fn mock_data_type(selection: &str, sensor_count_text: &str) -> (r: JsonValue)
    ensures
        r@ == mock_data_type_spec(selection@, sensor_count_text@),
{
    let mut e: Vec<(String, JsonValue)> = Vec::new();
    if crate::text::str_eq(selection, "counter") {
        e.push((owned("type"), text("counter")));
        proof {
            lemma_json_entries_view(e@);
            assert(crate::json::json_entries_view(e@) =~= seq![("type"@, JsonView::String("counter"@))]);
        }
    } else if crate::text::str_eq(selection, "sensorReading") {
        let n = sensor_count(sensor_count_text);
        e.push((owned("type"), text("sensorReading")));
        e.push((owned("sensorCount"), number(n as u64)));
        proof {
            lemma_json_entries_view(e@);
            assert(crate::json::json_entries_view(e@) =~= seq![
                ("type"@, JsonView::String("sensorReading"@)),
                ("sensorCount"@, jnum(sensor_count_spec(sensor_count_text@))),
            ]);
        }
    } else {
        e.push((owned("type"), text("generic")));
        proof {
            lemma_json_entries_view(e@);
            assert(crate::json::json_entries_view(e@) =~= seq![("type"@, JsonView::String("generic"@))]);
        }
    }
    object(e)
}

/// The source a mock source's answers describe.
pub fn mock_source(id: String, data_type: JsonValue, interval_ms: u64) -> (r: SourceConfig)
    ensures
        r@ == (SourceView {
            kind: "mock"@,
            id: id@,
            auto_start: true,
            bootstrap_provider: None,
            config: JsonView::Object(seq![("intervalMs"@, jnum(interval_ms as nat)), ("dataType"@, data_type@)]),
        }),
{
    let ghost dt = data_type@;
    let mut e: Vec<(String, JsonValue)> = Vec::new();
    e.push((owned("intervalMs"), number(interval_ms)));
    e.push((owned("dataType"), data_type));
    proof {
        lemma_json_entries_view(e@);
        assert(crate::json::json_entries_view(e@) =~= seq![("intervalMs"@, jnum(interval_ms as nat)), ("dataType"@, dt)]);
    }
    SourceConfig { kind: owned("mock"), id, auto_start: true, bootstrap_provider: None, config: object(e) }
}

/// The placeholder query that generated reactions subscribe to.
fn placeholder_queries() -> (r: Vec<String>)
    ensures
        strings_view(r@) == seq!["my-query"@],
{
    let mut q: Vec<String> = Vec::new();
    q.push(owned("my-query"));
    assert(strings_view(q@) =~= seq!["my-query"@]);
    q
}

/// An empty JSON object.
fn empty_object() -> (r: JsonValue)
    ensures
        r@ == JsonView::Object(Seq::empty()),
{
    let e: Vec<(String, JsonValue)> = Vec::new();
    proof {
        lemma_json_entries_view(e@);
        assert(crate::json::json_entries_view(e@) =~= Seq::<(Seq<char>, JsonView)>::empty());
    }
    object(e)
}

/// The log reaction with the given id.
pub fn log_reaction(id: String) -> (r: ReactionConfig)
    ensures
        r@ == (ReactionView {
            kind: "log"@,
            id: id@,
            queries: seq!["my-query"@],
            auto_start: true,
            config: JsonView::Object(seq![("routes"@, JsonView::Object(Seq::empty()))]),
        }),
{
    let mut e: Vec<(String, JsonValue)> = Vec::new();
    e.push((owned("routes"), empty_object()));
    proof {
        lemma_json_entries_view(e@);
        assert(crate::json::json_entries_view(e@) =~= seq![("routes"@, JsonView::Object(Seq::empty()))]);
    }
    ReactionConfig { kind: owned("log"), id, queries: placeholder_queries(), auto_start: true, config: object(e) }
}

/// The HTTP webhook reaction posting to `base_url`.
pub fn http_reaction(id: String, base_url: &str) -> (r: ReactionConfig)
    ensures
        r@ == (ReactionView {
            kind: "http"@,
            id: id@,
            queries: seq!["my-query"@],
            auto_start: true,
            config: JsonView::Object(
                seq![
                    ("baseUrl"@, JsonView::String(base_url@)),
                    ("timeoutMs"@, jnum(5000)),
                    ("routes"@, JsonView::Object(Seq::empty())),
                ],
            ),
        }),
{
    let mut e: Vec<(String, JsonValue)> = Vec::new();
    e.push((owned("baseUrl"), text(base_url)));
    e.push((owned("timeoutMs"), number(5000)));
    e.push((owned("routes"), empty_object()));
    proof {
        lemma_json_entries_view(e@);
        assert(crate::json::json_entries_view(e@) =~= seq![
            ("baseUrl"@, JsonView::String(base_url@)),
            ("timeoutMs"@, jnum(5000)),
            ("routes"@, JsonView::Object(Seq::empty())),
        ]);
    }
    ReactionConfig { kind: owned("http"), id, queries: placeholder_queries(), auto_start: true, config: object(e) }
}

/// The SSE reaction serving on `host:port`.
pub fn sse_reaction(id: String, host: &str, port: u16) -> (r: ReactionConfig)
    ensures
        r@ == (ReactionView {
            kind: "sse"@,
            id: id@,
            queries: seq!["my-query"@],
            auto_start: true,
            config: JsonView::Object(
                seq![
                    ("host"@, JsonView::String(host@)),
                    ("port"@, jnum(port as nat)),
                    ("ssePath"@, JsonView::String("/events"@)),
                    ("heartbeatIntervalMs"@, jnum(30000)),
                    ("routes"@, JsonView::Object(Seq::empty())),
                ],
            ),
        }),
{
    let mut e: Vec<(String, JsonValue)> = Vec::new();
    e.push((owned("host"), text(host)));
    e.push((owned("port"), number(port as u64)));
    e.push((owned("ssePath"), text("/events")));
    e.push((owned("heartbeatIntervalMs"), number(30000)));
    e.push((owned("routes"), empty_object()));
    proof {
        lemma_json_entries_view(e@);
        assert(crate::json::json_entries_view(e@) =~= seq![
            ("host"@, JsonView::String(host@)),
            ("port"@, jnum(port as nat)),
            ("ssePath"@, JsonView::String("/events"@)),
            ("heartbeatIntervalMs"@, jnum(30000)),
            ("routes"@, JsonView::Object(Seq::empty())),
        ]);
    }
    ReactionConfig { kind: owned("sse"), id, queries: placeholder_queries(), auto_start: true, config: object(e) }
}

/// The settings of the gRPC reaction streaming to `endpoint`.
pub open spec fn grpc_reaction_settings(endpoint: Seq<char>) -> Seq<(Seq<char>, JsonView)> {
    seq![
        ("endpoint"@, JsonView::String(endpoint)),
        ("timeoutMs"@, jnum(5000)),
        ("batchSize"@, jnum(100)),
        ("batchFlushTimeoutMs"@, jnum(1000)),
        ("maxRetries"@, jnum(3)),
        ("connectionRetryAttempts"@, jnum(5)),
        ("initialConnectionTimeoutMs"@, jnum(10000)),
        ("metadata"@, JsonView::Object(Seq::empty())),
    ]
}

/// The gRPC reaction streaming to `endpoint`.
pub fn grpc_reaction(id: String, endpoint: &str) -> (r: ReactionConfig)
    ensures
        r@ == (ReactionView {
            kind: "grpc"@,
            id: id@,
            queries: seq!["my-query"@],
            auto_start: true,
            config: JsonView::Object(grpc_reaction_settings(endpoint@)),
        }),
{
    let mut e: Vec<(String, JsonValue)> = Vec::new();
    e.push((owned("endpoint"), text(endpoint)));
    e.push((owned("timeoutMs"), number(5000)));
    e.push((owned("batchSize"), number(100)));
    e.push((owned("batchFlushTimeoutMs"), number(1000)));
    e.push((owned("maxRetries"), number(3)));
    e.push((owned("connectionRetryAttempts"), number(5)));
    e.push((owned("initialConnectionTimeoutMs"), number(10000)));
    e.push((owned("metadata"), empty_object()));
    proof {
        lemma_json_entries_view(e@);
        assert(crate::json::json_entries_view(e@) =~= grpc_reaction_settings(endpoint@));
    }
    ReactionConfig { kind: owned("grpc"), id, queries: placeholder_queries(), auto_start: true, config: object(e) }
}

} // verus!
