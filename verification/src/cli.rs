//! The command-line client: the request each command sends to a workspace
//! server, over HTTP or through `ssh`.
use vstd::prelude::*;
use crate::json::{arr1, jstr, jv, jv_fields, lemma_jv_fields, obj0, obj1, obj2, Json, JsonValue};
use crate::text::{chars_of, concat, string_of_range, decimal, decimal_string, joined, join_strings, lemma_views_push, push_str, replace_all, replace_str, views};

verus! {

/// A package subcommand.
pub enum PkgAction {
    Install { package: String },
    Search { query: String },
    List,
    Remove { package: String },
    Apply,
    Sync,
}

/// The position and extra arguments of an `lsp` command; each is sent
/// only when given.
pub struct LspOptions {
    pub line: Option<u32>,
    pub column: Option<u32>,
    pub end_line: Option<u32>,
    pub end_column: Option<u32>,
    pub query: Option<String>,
    pub new_name: Option<String>,
    pub tab_size: Option<u32>,
    pub insert_spaces: Option<bool>,
}

/// A command of the command-line client.
#[allow(inconsistent_fields)]
pub enum Command {
    Serve { port: u16 },
    Mcp,
    Read { path: String },
    Bash { command: String },
    Edit { path: String, old_text: String, new_text: String },
    Write { path: String, content: String },
    Grep { pattern: String, path: Option<String> },
    Find { path: String, name: Option<String> },
    Ls { path: String },
    Spawn { command: String },
    Logs { session_id: String },
    Status { session_id: String },
    Kill { session_id: String },
    Sessions,
    Diagnose { path: String },
    Lsp { method: String, path: String, opts: LspOptions },
    LspSessions,
    Git { args: Vec<String> },
    Upload { local: String, remote: String },
    Pkg { action: PkgAction },
}

/// A command that asks a workspace server: all but `serve`, `mcp` and
/// `pkg`, which run here.
pub open spec fn is_remote(c: Command) -> bool {
    !(c is Serve || c is Mcp || c is Pkg)
}

/// A remote command that is sent as a JSON body to a route (all but
/// `upload`, which sends the raw bytes of a local file).
pub open spec fn has_route(c: Command) -> bool {
    is_remote(c) && !(c is Upload)
}

/// A string, or null.
pub open spec fn opt_json(o: Option<String>) -> Json {
    match o {
        Some(s) => Json::Str(s@),
        None => Json::Null,
    }
}

/// An object with one string field.
pub open spec fn one_field(k: Seq<char>, v: Seq<char>) -> Json {
    Json::Object(seq![(k, Json::Str(v))])
}

/// The route a remote command is sent to and its request body. The body's
/// fields stand in the order of their names, as the client serialises them.
pub open spec fn route_of(c: Command) -> (Seq<char>, Json) {
    match c {
        Command::Read { path } => ("read"@, one_field("path"@, path@)),
        Command::Bash { command } => ("bash"@, one_field("command"@, command@)),
        Command::Edit { path, old_text, new_text } => (
            "edit"@,
            Json::Object(
                seq![
                    (
                        "edits"@,
                        Json::Array(
                            seq![
                                Json::Object(
                                    seq![
                                        ("new_text"@, Json::Str(new_text@)),
                                        ("old_text"@, Json::Str(old_text@)),
                                    ],
                                ),
                            ],
                        ),
                    ),
                    ("path"@, Json::Str(path@)),
                ],
            ),
        ),
        Command::Write { path, content } => (
            "write"@,
            Json::Object(seq![("content"@, Json::Str(content@)), ("path"@, Json::Str(path@))]),
        ),
        Command::Grep { pattern, path } => (
            "grep"@,
            Json::Object(seq![("path"@, opt_json(path)), ("pattern"@, Json::Str(pattern@))]),
        ),
        Command::Find { path, name } => (
            "find"@,
            Json::Object(seq![("name"@, opt_json(name)), ("path"@, Json::Str(path@))]),
        ),
        Command::Ls { path } => ("ls"@, one_field("path"@, path@)),
        Command::Spawn { command } => ("spawn"@, one_field("command"@, command@)),
        Command::Logs { session_id } => ("logs"@, one_field("session_id"@, session_id@)),
        Command::Status { session_id } => ("status"@, one_field("session_id"@, session_id@)),
        Command::Kill { session_id } => ("kill"@, one_field("session_id"@, session_id@)),
        Command::Sessions => ("sessions"@, Json::Object(seq![])),
        Command::Diagnose { path } => ("lsp/diagnose"@, one_field("path"@, path@)),
        Command::Lsp { method, path, opts } => (
            "lsp/request"@,
            Json::Object(lsp_fields(method@, path@, opts)),
        ),
        Command::LspSessions => ("lsp-sessions"@, Json::Object(seq![])),
        Command::Git { args } => (
            "bash"@,
            one_field("command"@, "git "@ + joined(views(args@), " "@)),
        ),
        _ => (seq![], Json::Null),
    }
}

/// An optional string as a document: the string, or null.
fn opt_value(o: &Option<String>) -> (v: JsonValue)
    ensures
        jv(v) == opt_json(*o),
{
    match o {
        Some(s) => jstr(s.as_str()),
        None => JsonValue::Null,
    }
}

/// The route a remote command is sent to and its request body.
pub fn command_route(cmd: &Command) -> (r: (&'static str, JsonValue))
    requires
        has_route(*cmd),
    ensures
        (r.0@, jv(r.1)) == route_of(*cmd),
{
    match cmd {
        Command::Read { path } => ("read", obj1("path", jstr(path.as_str()))),
        Command::Bash { command } => ("bash", obj1("command", jstr(command.as_str()))),
        Command::Edit { path, old_text, new_text } => {
            let edit = obj2("new_text", jstr(new_text.as_str()), "old_text", jstr(old_text.as_str()));
            ("edit", obj2("edits", arr1(edit), "path", jstr(path.as_str())))
        },
        Command::Write { path, content } => (
            "write",
            obj2("content", jstr(content.as_str()), "path", jstr(path.as_str())),
        ),
        Command::Grep { pattern, path } => (
            "grep",
            obj2("path", opt_value(path), "pattern", jstr(pattern.as_str())),
        ),
        Command::Find { path, name } => (
            "find",
            obj2("name", opt_value(name), "path", jstr(path.as_str())),
        ),
        Command::Ls { path } => ("ls", obj1("path", jstr(path.as_str()))),
        Command::Spawn { command } => ("spawn", obj1("command", jstr(command.as_str()))),
        Command::Logs { session_id } => ("logs", obj1("session_id", jstr(session_id.as_str()))),
        Command::Status { session_id } => ("status", obj1("session_id", jstr(session_id.as_str()))),
        Command::Kill { session_id } => ("kill", obj1("session_id", jstr(session_id.as_str()))),
        Command::Sessions => ("sessions", obj0()),
        Command::Diagnose { path } => ("lsp/diagnose", obj1("path", jstr(path.as_str()))),
        Command::Lsp { method, path, opts } => ("lsp/request", lsp_body(method, path, opts)),
        Command::LspSessions => ("lsp-sessions", obj0()),
        Command::Git { args } => {
            let command = concat("git ", join_strings(args, " ").as_str());
            ("bash", obj1("command", jstr(command.as_str())))
        },
        _ => ("", JsonValue::Null),
    }
}


/// A field, present only when it has a value.
pub open spec fn opt_field(key: Seq<char>, v: Option<Json>) -> Seq<(Seq<char>, Json)> {
    match v {
        Some(j) => seq![(key, j)],
        None => seq![],
    }
}

/// An optional number as a document.
pub open spec fn num_json(v: Option<u32>) -> Option<Json> {
    match v {
        Some(n) => Some(Json::UInt(n as u64)),
        None => None,
    }
}

/// An optional string as a document.
pub open spec fn text_json(v: Option<String>) -> Option<Json> {
    match v {
        Some(s) => Some(Json::Str(s@)),
        None => None,
    }
}

/// An optional flag as a document.
pub open spec fn bool_json(v: Option<bool>) -> Option<Json> {
    match v {
        Some(b) => Some(Json::Bool(b)),
        None => None,
    }
}

/// The body of an `lsp` command: its method and path, and each option that
/// was given, under the names the server reads, in the order of the names.
pub open spec fn lsp_fields(method: Seq<char>, path: Seq<char>, o: LspOptions) -> Seq<(Seq<char>, Json)> {
    opt_field("column"@, num_json(o.column)) + opt_field("end_column"@, num_json(o.end_column))
        + opt_field("end_line"@, num_json(o.end_line)) + opt_field(
        "insert_spaces"@,
        bool_json(o.insert_spaces),
    ) + opt_field("line"@, num_json(o.line)) + seq![("method"@, Json::Str(method))] + opt_field(
        "new_name"@,
        text_json(o.new_name),
    ) + seq![("path"@, Json::Str(path))] + opt_field("query"@, text_json(o.query)) + opt_field(
        "tab_size"@,
        num_json(o.tab_size),
    )
}

/// The value of an optional document.
pub open spec fn opt_jv(v: Option<JsonValue>) -> Option<Json> {
    match v {
        Some(x) => Some(jv(x)),
        None => None,
    }
}

/// Appends the field `key` when it has a value.
fn push_field(fields: &mut Vec<(String, JsonValue)>, key: &str, v: Option<JsonValue>)
    ensures
        jv_fields(final(fields)@) == jv_fields(old(fields)@) + opt_field(key@, opt_jv(v)),
{
    match v {
        Some(x) => {
            let ghost before = fields@;
            let ghost xv = jv(x);
            fields.push((key.to_owned(), x));
            assert(fields@.subrange(0, fields@.len() - 1) =~= before);
            assert(jv_fields(fields@) =~= jv_fields(before) + seq![(key@, xv)]);
        },
        None => {
            assert(jv_fields(fields@) =~= jv_fields(fields@) + Seq::<(Seq<char>, Json)>::empty());
        },
    }
}

/// An optional number as a document.
fn num_value(v: Option<u32>) -> (r: Option<JsonValue>)
    ensures
        opt_jv(r) == num_json(v),
{
    match v {
        Some(n) => Some(JsonValue::UInt(n as u64)),
        None => None,
    }
}

/// An optional string as a document.
fn text_value(v: &Option<String>) -> (r: Option<JsonValue>)
    ensures
        opt_jv(r) == text_json(*v),
{
    match v {
        Some(s) => Some(jstr(s.as_str())),
        None => None,
    }
}

/// The body of an `lsp` command.
fn lsp_body(method: &String, path: &String, opts: &LspOptions) -> (v: JsonValue)
    ensures
        jv(v) == Json::Object(lsp_fields(method@, path@, *opts)),
{
    let mut fields: Vec<(String, JsonValue)> = Vec::new();
    assert(jv_fields(fields@) =~= Seq::<(Seq<char>, Json)>::empty());
    push_field(&mut fields, "column", num_value(opts.column));
    push_field(&mut fields, "end_column", num_value(opts.end_column));
    push_field(&mut fields, "end_line", num_value(opts.end_line));
    let flag = match opts.insert_spaces {
        Some(b) => Some(JsonValue::Bool(b)),
        None => None,
    };
    push_field(&mut fields, "insert_spaces", flag);
    push_field(&mut fields, "line", num_value(opts.line));
    push_field(&mut fields, "method", Some(jstr(method.as_str())));
    push_field(&mut fields, "new_name", text_value(&opts.new_name));
    push_field(&mut fields, "path", Some(jstr(path.as_str())));
    push_field(&mut fields, "query", text_value(&opts.query));
    push_field(&mut fields, "tab_size", num_value(opts.tab_size));
    assert(jv_fields(fields@) =~= lsp_fields(method@, path@, *opts));
    JsonValue::Object(fields)
}

/// The words of an option: the flag (none for a positional one) and the
/// value, when it was given.
pub open spec fn opt_words(flag: Seq<char>, v: Option<Seq<char>>) -> Seq<Seq<char>> {
    match v {
        Some(w) => if flag.len() == 0 {
            seq![w]
        } else {
            seq![flag, w]
        },
        None => seq![],
    }
}

/// An optional number as a command-line word.
pub open spec fn num_word(v: Option<u32>) -> Option<Seq<char>> {
    match v {
        Some(n) => Some(decimal(n as nat)),
        None => None,
    }
}

/// An optional flag as a command-line word.
pub open spec fn bool_word(v: Option<bool>) -> Option<Seq<char>> {
    match v {
        Some(b) => Some(if b { "true"@ } else { "false"@ }),
        None => None,
    }
}

/// The words of an `lsp` command as typed on the command line.
pub open spec fn lsp_words(method: Seq<char>, path: Seq<char>, o: LspOptions) -> Seq<Seq<char>> {
    seq!["lsp"@, method, path] + opt_words(seq![], num_word(o.line)) + opt_words(
        seq![],
        num_word(o.column),
    ) + opt_words("--query"@, opt_str_view(o.query)) + opt_words(
        "--new-name"@,
        opt_str_view(o.new_name),
    ) + opt_words("--end-line"@, num_word(o.end_line)) + opt_words(
        "--end-column"@,
        num_word(o.end_column),
    ) + opt_words("--tab-size"@, num_word(o.tab_size)) + opt_words(
        "--insert-spaces"@,
        bool_word(o.insert_spaces),
    )
}

/// The view of an optional string.
pub open spec fn opt_str_view(v: Option<String>) -> Option<Seq<char>> {
    match v {
        Some(s) => Some(s@),
        None => None,
    }
}

/// Appends an option's words.
fn push_words(out: &mut Vec<String>, flag: &str, v: Option<String>)
    ensures
        views(final(out)@) == views(old(out)@) + opt_words(flag@, opt_str_view(v)),
{
    let ghost before = views(out@);
    match v {
        Some(w) => {
            if flag.is_empty() {
                proof {
                    lemma_views_push(out@, w);
                }
                out.push(w);
                assert(views(out@) =~= before + opt_words(flag@, opt_str_view(Some(w))));
            } else {
                let f = flag.to_owned();
                proof {
                    lemma_views_push(out@, f);
                }
                out.push(f);
                let ghost mid = views(out@);
                proof {
                    lemma_views_push(out@, w);
                }
                out.push(w);
                assert(views(out@) =~= before + opt_words(flag@, opt_str_view(Some(w))));
            }
        },
        None => {
            assert(views(out@) =~= before + Seq::<Seq<char>>::empty());
        },
    }
}

/// An optional number as a command-line word.
fn num_text(v: Option<u32>) -> (r: Option<String>)
    ensures
        opt_str_view(r) == num_word(v),
{
    match v {
        Some(n) => Some(decimal_string(n as u64)),
        None => None,
    }
}

/// The words after `ws` for an `lsp` command.
fn lsp_ssh_words(method: &String, path: &String, opts: &LspOptions) -> (r: Vec<String>)
    ensures
        views(r@) == lsp_words(method@, path@, *opts),
{
    let mut r = vec!["lsp".to_owned(), method.clone(), path.clone()];
    assert(views(r@) =~= seq!["lsp"@, method@, path@]);
    proof {
        reveal_strlit("");
    }
    push_words(&mut r, "", num_text(opts.line));
    push_words(&mut r, "", num_text(opts.column));
    push_words(&mut r, "--query", opts.query.clone());
    push_words(&mut r, "--new-name", opts.new_name.clone());
    push_words(&mut r, "--end-line", num_text(opts.end_line));
    push_words(&mut r, "--end-column", num_text(opts.end_column));
    push_words(&mut r, "--tab-size", num_text(opts.tab_size));
    let flag = match opts.insert_spaces {
        Some(b) => Some(if b {
            "true".to_owned()
        } else {
            "false".to_owned()
        }),
        None => None,
    };
    push_words(&mut r, "--insert-spaces", flag);
    assert(views(r@) =~= lsp_words(method@, path@, *opts));
    r
}

/// The words after `ws` that run a remote command on the far side of
/// `ssh`: the command as it is typed on the command line, subcommand and
/// arguments in their own order, so that the far `ws` reads the same
/// command.
pub open spec fn ssh_args_of(c: Command) -> Seq<Seq<char>> {
    match c {
        Command::Read { path } => seq!["read"@, path@],
        Command::Bash { command } => seq!["bash"@, command@],
        Command::Edit { path, old_text, new_text } => seq!["edit"@, path@, old_text@, new_text@],
        Command::Write { path, content } => seq!["write"@, path@, content@],
        Command::Grep { pattern, path } => seq!["grep"@, pattern@] + opt_words(seq![], opt_str_view(path)),
        Command::Find { path, name } => seq!["find"@, path@] + opt_words("--name"@, opt_str_view(name)),
        Command::Ls { path } => seq!["ls"@, path@],
        Command::Spawn { command } => seq!["spawn"@, command@],
        Command::Logs { session_id } => seq!["logs"@, session_id@],
        Command::Status { session_id } => seq!["status"@, session_id@],
        Command::Kill { session_id } => seq!["kill"@, session_id@],
        Command::Sessions => seq!["sessions"@],
        Command::Diagnose { path } => seq!["diagnose"@, path@],
        Command::Lsp { method, path, opts } => lsp_words(method@, path@, opts),
        Command::LspSessions => seq!["lsp-sessions"@],
        Command::Git { args } => seq!["git"@] + views(args@),
        _ => seq![],
    }
}

/// Two words.
fn words2(a: &str, b: &String) -> (r: Vec<String>)
    ensures
        views(r@) == seq![a@, b@],
{
    let r = vec![a.to_owned(), b.clone()];
    assert(views(r@) =~= seq![a@, b@]);
    r
}

/// The words after `ws` that run a remote command on the far side of `ssh`.
pub fn ssh_args(cmd: &Command) -> (r: Vec<String>)
    requires
        has_route(*cmd),
    ensures
        views(r@) == ssh_args_of(*cmd),
{
    proof {
        reveal_strlit("");
    }
    match cmd {
        Command::Read { path } => words2("read", path),
        Command::Bash { command } => words2("bash", command),
        Command::Edit { path, old_text, new_text } => {
            let r = vec!["edit".to_owned(), path.clone(), old_text.clone(), new_text.clone()];
            assert(views(r@) =~= ssh_args_of(*cmd));
            r
        },
        Command::Write { path, content } => {
            let r = vec!["write".to_owned(), path.clone(), content.clone()];
            assert(views(r@) =~= ssh_args_of(*cmd));
            r
        },
        Command::Grep { pattern, path } => {
            let mut r = words2("grep", pattern);
            push_words(&mut r, "", path.clone());
            r
        },
        Command::Find { path, name } => {
            let mut r = words2("find", path);
            push_words(&mut r, "--name", name.clone());
            r
        },
        Command::Ls { path } => words2("ls", path),
        Command::Spawn { command } => words2("spawn", command),
        Command::Logs { session_id } => words2("logs", session_id),
        Command::Status { session_id } => words2("status", session_id),
        Command::Kill { session_id } => words2("kill", session_id),
        Command::Sessions => {
            let r = vec!["sessions".to_owned()];
            assert(views(r@) =~= ssh_args_of(*cmd));
            r
        },
        Command::Diagnose { path } => words2("diagnose", path),
        Command::Lsp { method, path, opts } => lsp_ssh_words(method, path, opts),
        Command::LspSessions => {
            let r = vec!["lsp-sessions".to_owned()];
            assert(views(r@) =~= ssh_args_of(*cmd));
            r
        },
        Command::Git { args } => {
            let mut r = vec!["git".to_owned()];
            let mut i: usize = 0;
            while i < args.len()
                invariant
                    i <= args@.len(),
                    views(r@) == seq!["git"@] + views(args@).take(i as int),
                decreases args@.len() - i,
            {
                proof {
                    lemma_views_push(r@, args@[i as int]);
                }
                r.push(args[i].clone());
                assert(views(args@).take(i + 1) =~= views(args@).take(i as int).push(args@[i as int]@));
                assert(views(r@) =~= seq!["git"@] + views(args@).take(i + 1));
                i += 1;
            }
            assert(views(args@).take(i as int) =~= views(args@));
            r
        },
        _ => Vec::new(),
    }
}

/// A word quoted for a POSIX shell: in single quotes, each `'` in it
/// written `'\''`.
pub open spec fn shell_quote(a: Seq<char>) -> Seq<char> {
    seq!['\''] + replace_all(a, seq!['\''], seq!['\'', '\\', '\'', '\'']) + seq!['\'']
}

/// The command that `ssh` runs on the far host.
pub open spec fn remote_command_line(args: Seq<Seq<char>>) -> Seq<char> {
    "ws "@ + joined(args.map_values(|a: Seq<char>| shell_quote(a)), " "@)
}

/// A word quoted for a POSIX shell.
pub fn quote_word(a: &str) -> (r: String)
    ensures
        r@ == shell_quote(a@),
{
    proof {
        reveal_strlit("'");
        reveal_strlit("'\\''");
        assert("'"@ =~= seq!['\'']);
        assert("'\\''"@ =~= seq!['\'', '\\', '\'', '\'']);
    }
    let inner = replace_str(a, "'", "'\\''");
    let mut r = "'".to_owned();
    push_str(&mut r, inner.as_str());
    push_str(&mut r, "'");
    r
}

/// The command that `ssh` runs on the far host for a remote command.
pub fn remote_command(cmd: &Command) -> (r: String)
    requires
        has_route(*cmd),
    ensures
        r@ == remote_command_line(ssh_args_of(*cmd)),
{
    let args = ssh_args(cmd);
    let mut quoted: Vec<String> = Vec::new();
    let mut i: usize = 0;
    while i < args.len()
        invariant
            i <= args@.len(),
            views(args@) == ssh_args_of(*cmd),
            views(quoted@) == views(args@).take(i as int).map_values(|a: Seq<char>| shell_quote(a)),
        decreases args@.len() - i,
    {
        let q = quote_word(args[i].as_str());
        proof {
            lemma_views_push(quoted@, q);
        }
        quoted.push(q);
        assert(views(quoted@) =~= views(args@).take(i + 1).map_values(|a: Seq<char>| shell_quote(a)));
        i += 1;
    }
    assert(views(args@).take(i as int) =~= views(args@));
    concat("ws ", join_strings(&quoted, " ").as_str())
}

/// The arguments given to `ssh` to run a remote command on `host`: host
/// keys are neither checked nor remembered.
pub open spec fn ssh_invocation_of(host: Seq<char>, c: Command) -> Seq<Seq<char>> {
    seq![
        "-o"@,
        "StrictHostKeyChecking=no"@,
        "-o"@,
        "UserKnownHostsFile=/dev/null"@,
        host,
        remote_command_line(ssh_args_of(c)),
    ]
}

/// The arguments given to `ssh` to run a remote command on `host`.
pub fn ssh_invocation(host: &str, cmd: &Command) -> (r: Vec<String>)
    requires
        has_route(*cmd),
    ensures
        views(r@) == ssh_invocation_of(host@, *cmd),
{
    let r = vec![
        "-o".to_owned(),
        "StrictHostKeyChecking=no".to_owned(),
        "-o".to_owned(),
        "UserKnownHostsFile=/dev/null".to_owned(),
        host.to_owned(),
        remote_command(cmd),
    ];
    assert(views(r@) =~= ssh_invocation_of(host@, *cmd));
    r
}

/// `s` without the `/`s at its end (`str::trim_end_matches('/')`).
pub open spec fn trim_slashes(s: Seq<char>) -> Seq<char>
    decreases s.len(),
{
    if s.len() > 0 && s.last() == '/' {
        trim_slashes(s.drop_last())
    } else {
        s
    }
}

/// `str::trim_end_matches('/')`.
pub fn trim_end_slashes(s: &str) -> (r: String)
    ensures
        r@ == trim_slashes(s@),
{
    let cs = chars_of(s);
    let mut n: usize = cs.len();
    assert(cs@.take(cs@.len() as int) =~= cs@);
    while n > 0 && cs[n - 1] == '/'
        invariant
            n <= cs@.len(),
            trim_slashes(cs@) == trim_slashes(cs@.take(n as int)),
        decreases n,
    {
        assert(cs@.take(n as int).drop_last() =~= cs@.take(n - 1));
        n -= 1;
    }
    assert(cs@.subrange(0, n as int) =~= cs@.take(n as int));
    string_of_range(&cs, 0, n)
}

/// Whether a remote command reads state with a GET: the two session lists.
pub open spec fn is_get(c: Command) -> bool {
    c is Sessions || c is LspSessions
}

/// The path on the server that a remote command asks; the LSP session list
/// is read from `lsp/sessions`.
pub open spec fn endpoint_of(c: Command) -> Seq<char> {
    match c {
        Command::LspSessions => "lsp/sessions"@,
        Command::Upload { .. } => "upload"@,
        _ => route_of(c).0,
    }
}

/// The path on the server that a remote command asks (as error messages
/// name it).
pub fn endpoint(cmd: &Command) -> (r: &'static str)
    requires
        is_remote(*cmd),
    ensures
        r@ == endpoint_of(*cmd),
{
    match cmd {
        Command::LspSessions => "lsp/sessions",
        Command::Upload { .. } => "upload",
        _ => command_route(cmd).0,
    }
}

/// An HTTP request to a workspace server.
pub enum RemoteRequest {
    Get { url: String },
    Post { url: String, body: JsonValue },
    /// A POST of the bytes of the local file `local`, to be written at
    /// `path` on the server.
    Upload { url: String, path: String, local: String },
}

/// The HTTP request that runs a remote command on the server at `server`:
/// a GET of the session lists, an upload of a local file's bytes, else a
/// POST of the command's body to its route.
pub fn http_request(server: &str, cmd: &Command) -> (r: RemoteRequest)
    requires
        is_remote(*cmd),
    ensures
        match r {
            RemoteRequest::Get { url } => is_get(*cmd) && url@ == trim_slashes(server@) + seq!['/']
                + endpoint_of(*cmd),
            RemoteRequest::Post { url, body } => has_route(*cmd) && !is_get(*cmd) && url@ == trim_slashes(
                server@,
            ) + seq!['/'] + endpoint_of(*cmd) && jv(body) == route_of(*cmd).1,
            RemoteRequest::Upload { url, path, local } => (*cmd matches Command::Upload {
                local: l,
                remote: p,
            } && local@ == l@ && path@ == p@) && url@ == trim_slashes(server@) + seq!['/']
                + endpoint_of(*cmd),
        },
{
    let base = trim_end_slashes(server);
    let mut url = base;
    proof {
        reveal_strlit("/");
        assert("/"@ =~= seq!['/']);
    }
    push_str(&mut url, "/");
    match cmd {
        Command::Sessions => {
            push_str(&mut url, "sessions");
            RemoteRequest::Get { url }
        },
        Command::LspSessions => {
            push_str(&mut url, "lsp/sessions");
            RemoteRequest::Get { url }
        },
        Command::Upload { local, remote } => {
            push_str(&mut url, "upload");
            RemoteRequest::Upload { url, path: remote.clone(), local: local.clone() }
        },
        _ => {
            let (route, body) = command_route(cmd);
            push_str(&mut url, route);
            RemoteRequest::Post { url, body }
        },
    }
}

/// Where remote commands go: through `ssh` to a host, or over HTTP to a
/// server's URL.
pub enum Target {
    Ssh(String),
    Http(String),
}

/// Where remote commands go: the `--ssh` host, else the `WS_SSH` host;
/// without either, the `--server` URL, else the one in `REMOTE_WS`, else
/// `http://localhost:18765`.
pub fn pick_target(
    ssh_flag: Option<String>,
    ssh_env: Option<String>,
    server_flag: Option<String>,
    server_env: Option<String>,
) -> (t: Target)
    ensures
        match (ssh_flag, ssh_env) {
            (Some(h), _) => t == Target::Ssh(h),
            (None, Some(h)) => t == Target::Ssh(h),
            (None, None) => match (server_flag, server_env) {
                (Some(u), _) => t == Target::Http(u),
                (None, Some(u)) => t == Target::Http(u),
                (None, None) => t matches Target::Http(u) && u@ == default_server_url(),
            },
        },
{
    match ssh_flag {
        Some(h) => Target::Ssh(h),
        None => match ssh_env {
            Some(h) => Target::Ssh(h),
            None => match server_flag {
                Some(u) => Target::Http(u),
                None => match server_env {
                    Some(u) => Target::Http(u),
                    None => Target::Http(default_server()),
                },
            },
        },
    }
}

/// The port `serve` listens on when none is given.
pub const DEFAULT_PORT: u16 = 18765;

/// The server used when none is named.
pub open spec fn default_server_url() -> Seq<char> {
    "http://localhost:18765"@
}

/// The server used when none is named: `http://localhost:18765`.
pub fn default_server() -> (s: String)
    ensures
        s@ == default_server_url(),
{
    "http://localhost:18765".to_owned()
}

} // verus!
