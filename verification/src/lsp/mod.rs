//! Language-server sessions: which server serves a file, the messages sent
//! to it, and the state kept about what it answered.
pub mod download;
pub mod framing;
pub mod request;
pub mod server;

use vstd::prelude::*;
use crate::table::Table;
use crate::text::{
    chars_of, concat, push_str, contains_string, has_prefix, push_unique, strip_prefix, strip_prefix_str, trim, trim_str, views, has_suffix, str_eq, str_ends_with, str_starts_with,
};
use crate::json::{
    arr, arr0, arr1, get_bool, js_array, jv_items, lemma_jv_items, get_str, get_u64, int_json, jint, js_bool, js_get, js_str, js_u64, jstr,
    jv, obj0, obj1, obj2, obj3, obj4, obj5, Json, JsonValue,
};
use self::server::{for_extension, server_table, server_views, servers, serving, strs, LspServer, RootMode, ServerView};

verus! {

/// The extension that std's `Path::extension` finds in a path: the part of
/// its file name after the last `.`, if the name has a `.` that is not its
/// first character.
pub uninterp spec fn path_extension(path: Seq<char>) -> Option<Seq<char>>;

/// Calls std's `Path::extension` and converts the extension to a `String`.
/// Claimed: the result is `path_extension` of the path, none when that is
/// none.
#[verifier::external_body]
fn extension_of(path: &str) -> (r: Option<String>)
    ensures
        match r {
            Some(e) => path_extension(path@) == Some(e@),
            None => path_extension(path@) is None,
        },
{
    std::path::Path::new(path).extension().map(|e| e.to_string_lossy().into_owned())
}

/// The path that std's `Path::join` makes of `base` and `rest` on Unix: a
/// `rest` that starts at the root replaces `base`; otherwise `rest` follows
/// `base`, with one `/` between them unless `base` is empty or already ends
/// in `/`.
pub open spec fn path_join(base: Seq<char>, rest: Seq<char>) -> Seq<char> {
    if rest.len() > 0 && rest[0] == '/' {
        rest
    } else if base.len() == 0 || base.last() == '/' {
        base + rest
    } else {
        base + seq!['/'] + rest
    }
}

/// `Path::join` on Unix, as a string.
fn join_path(base: &str, rest: &str) -> (r: String)
    ensures
        r@ == path_join(base@, rest@),
{
    let rc = chars_of(rest);
    if rc.len() > 0 && rc[0] == '/' {
        return rest.to_owned();
    }
    let bc = chars_of(base);
    let mut r = base.to_owned();
    if bc.len() > 0 && bc[bc.len() - 1] != '/' {
        crate::text::push_char(&mut r, '/');
    }
    push_str(&mut r, rest);
    r
}

/// The key by which a file's language server is chosen.
pub open spec fn extension_key(path: Seq<char>) -> Seq<char> {
    match path_extension(path) {
        None => seq![],
        Some(e) => if e.len() == 0 && has_suffix(path, "Dockerfile"@) {
            "Dockerfile"@
        } else {
            seq!['.'] + e
        },
    }
}

/// The extension of `path` with its dot (`".rs"`), or empty if it has none.
pub fn extension_for(path: &str) -> (r: String)
    ensures
        r@ == extension_key(path@),
{
    match extension_of(path) {
        None => String::new(),
        Some(e) => {
            let ext = concat(".", e.as_str());
            proof {
                reveal_strlit(".");
            }
            if e.as_str().is_empty() && str_ends_with(path, "Dockerfile") {
                "Dockerfile".to_owned()
            } else {
                ext
            }
        },
    }
}

/// The language id announced for a file, given its server's default.
pub open spec fn language_id_for(path: Seq<char>, default: Seq<char>) -> Seq<char> {
    if extension_key(path) == ".tsx"@ {
        "typescriptreact"@
    } else if extension_key(path) == ".jsx"@ {
        "javascriptreact"@
    } else {
        default
    }
}

/// The language id announced for a file: React variants for `.tsx` and
/// `.jsx`, else the server's own.
pub fn language_id<'a>(path: &str, default: &'a str) -> (r: &'a str)
    ensures
        r@ == language_id_for(path@, default@),
{
    let ext = extension_for(path);
    if str_eq(ext.as_str(), ".tsx") {
        "typescriptreact"
    } else if str_eq(ext.as_str(), ".jsx") {
        "javascriptreact"
    } else {
        default
    }
}

/// A path is absolute when it begins at the root (`/`).
pub open spec fn is_absolute(path: Seq<char>) -> bool {
    path.len() > 0 && path[0] == '/'
}

/// `path` made absolute against the working directory `cwd`.
pub open spec fn absolute(path: Seq<char>, cwd: Seq<char>) -> Seq<char> {
    if is_absolute(path) {
        path
    } else {
        path_join(cwd, path)
    }
}

/// `path` made absolute against the working directory `cwd`.
pub fn absolute_path(path: &str, cwd: &str) -> (r: String)
    ensures
        r@ == absolute(path@, cwd@),
{
    if str_starts_with(path, "/") {
        proof {
            reveal_strlit("/");
            assert(path@[0] == path@.subrange(0, 1)[0]);
        }
        path.to_owned()
    } else {
        proof {
            reveal_strlit("/");
            if is_absolute(path@) {
                assert(path@.subrange(0, 1) =~= "/"@);
            }
        }
        join_path(cwd, path)
    }
}

/// The `file://` URI of an absolute path.
pub open spec fn file_uri(path: Seq<char>) -> Seq<char> {
    "file://"@ + path
}

/// The `textDocument` member naming a file.
pub open spec fn text_document(uri: Seq<char>) -> Json {
    Json::Object(seq![("uri"@, Json::Str(uri))])
}

/// The position a request names by its `line` and `column` members.
pub open spec fn position_of(req: Json) -> Result<Json, Seq<char>> {
    match js_u64(js_get(req, "line"@)) {
        None => Err("missing field: line"@),
        Some(l) => match js_u64(js_get(req, "column"@)) {
            None => Err("missing field: column"@),
            Some(c) => Ok(Json::Object(seq![("line"@, Json::UInt(l)), ("character"@, Json::UInt(c))])),
        },
    }
}

/// The first of two optional values that is present.
pub open spec fn either<A>(a: Option<A>, b: Option<A>) -> Option<A> {
    match a {
        Some(x) => Some(x),
        None => b,
    }
}

/// The methods whose parameters are a document and a position.
pub open spec fn is_position_method(m: Seq<char>) -> bool {
    ||| m == "textDocument/hover"@
    ||| m == "textDocument/definition"@
    ||| m == "textDocument/typeDefinition"@
    ||| m == "textDocument/implementation"@
    ||| m == "textDocument/references"@
    ||| m == "textDocument/completion"@
    ||| m == "textDocument/signatureHelp"@
    ||| m == "textDocument/prepareRename"@
}

/// The parameters of an LSP request for `method` on the file `path`, made
/// from the members of a tool request `req`, or the error that refuses it.
pub open spec fn params_for(path: Seq<char>, method: Seq<char>, req: Json, cwd: Seq<char>) -> Result<
    Json,
    Seq<char>,
> {
    let td = text_document(file_uri(absolute(path, cwd)));
    if method == "textDocument/documentSymbol"@ {
        Ok(Json::Object(seq![("textDocument"@, td)]))
    } else if method == "workspace/symbol"@ {
        match js_str(js_get(req, "query"@)) {
            None => Err("missing field: query"@),
            Some(q) => Ok(Json::Object(seq![("query"@, Json::Str(q))])),
        }
    } else if method == "textDocument/rename"@ {
        match position_of(req) {
            Err(e) => Err(e),
            Ok(p) => match js_str(js_get(req, "new_name"@)) {
                None => Err("missing field: new_name"@),
                Some(n) => Ok(
                    Json::Object(
                        seq![("textDocument"@, td), ("position"@, p), ("newName"@, Json::Str(n))],
                    ),
                ),
            },
        }
    } else if method == "textDocument/codeAction"@ {
        match position_of(req) {
            Err(e) => Err(e),
            Ok(start) => match either(
                js_u64(js_get(req, "end_line"@)),
                js_u64(js_get(req, "line"@)),
            ) {
                None => Err("missing field: line"@),
                Some(el) => match either(
                    js_u64(js_get(req, "end_column"@)),
                    js_u64(js_get(req, "column"@)),
                ) {
                    None => Err("missing field: column"@),
                    Some(ec) => Ok(
                        Json::Object(
                            seq![
                                ("textDocument"@, td),
                                (
                                    "range"@,
                                    Json::Object(
                                        seq![
                                            ("start"@, start),
                                            (
                                                "end"@,
                                                Json::Object(
                                                    seq![
                                                        ("line"@, Json::UInt(el)),
                                                        ("character"@, Json::UInt(ec)),
                                                    ],
                                                ),
                                            ),
                                        ],
                                    ),
                                ),
                                (
                                    "context"@,
                                    Json::Object(seq![("diagnostics"@, Json::Array(seq![]))]),
                                ),
                            ],
                        ),
                    ),
                },
            },
        }
    } else if method == "textDocument/formatting"@ {
        let tab = match js_u64(js_get(req, "tab_size"@)) {
            Some(t) => t,
            None => 4,
        };
        let spaces = match js_bool(js_get(req, "insert_spaces"@)) {
            Some(b) => b,
            None => true,
        };
        Ok(
            Json::Object(
                seq![
                    ("textDocument"@, td),
                    (
                        "options"@,
                        Json::Object(
                            seq![("tabSize"@, Json::UInt(tab)), ("insertSpaces"@, Json::Bool(spaces))],
                        ),
                    ),
                ],
            ),
        )
    } else if is_position_method(method) {
        match position_of(req) {
            Err(e) => Err(e),
            Ok(p) => if method == "textDocument/references"@ {
                Ok(
                    Json::Object(
                        seq![
                            ("textDocument"@, td),
                            ("position"@, p),
                            (
                                "context"@,
                                Json::Object(seq![("includeDeclaration"@, Json::Bool(true))]),
                            ),
                        ],
                    ),
                )
            } else {
                Ok(Json::Object(seq![("textDocument"@, td), ("position"@, p)]))
            },
        }
    } else {
        Err("unsupported LSP method: "@ + method)
    }
}

/// The range a code-action request asks about: it starts at the request's
/// `line` and `column`, and ends at its `end_line` and `end_column` when
/// they are given, each falling back to the start's value only when it is
/// missing.
pub proof fn law_code_action_range(path: Seq<char>, req: Json, cwd: Seq<char>, l: u64, c: u64)
    requires
        js_get(req, "line"@) == Some(Json::UInt(l)),
        js_get(req, "column"@) == Some(Json::UInt(c)),
    ensures
        match params_for(path, "textDocument/codeAction"@, req, cwd) {
            Err(_) => false,
            Ok(p) => {
            let range = js_get(p, "range"@).unwrap();
            let start = js_get(range, "start"@).unwrap();
            let end = js_get(range, "end"@).unwrap();
            &&& js_get(start, "line"@) == Some(Json::UInt(l))
            &&& js_get(start, "character"@) == Some(Json::UInt(c))
            &&& forall|el: u64| js_get(req, "end_line"@) == Some(Json::UInt(el)) ==> js_get(end, "line"@) == Some(Json::UInt(el))
            &&& forall|ec: u64| js_get(req, "end_column"@) == Some(Json::UInt(ec)) ==> js_get(end, "character"@) == Some(Json::UInt(ec))
            &&& js_get(req, "end_line"@) is None ==> js_get(end, "line"@) == Some(Json::UInt(l))
            &&& js_get(req, "end_column"@) is None ==> js_get(end, "character"@) == Some(Json::UInt(c))
            },
        },
{
    reveal_strlit("textDocument/codeAction");
    reveal_strlit("textDocument/documentSymbol");
    reveal_strlit("workspace/symbol");
    reveal_strlit("textDocument/rename");
    reveal_strlit("textDocument");
    reveal_strlit("range");
    reveal_strlit("context");
    reveal_strlit("start");
    reveal_strlit("end");
    reveal_strlit("line");
    reveal_strlit("character");
    reveal_with_fuel(crate::json::field_index, 4);
    assert("textDocument/codeAction"@.len() != "textDocument/documentSymbol"@.len());
    assert("textDocument/codeAction"@.len() != "workspace/symbol"@.len());
    assert("textDocument/codeAction"@.len() != "textDocument/rename"@.len());
    assert("textDocument"@.len() != "range"@.len());
    assert("start"@.len() != "end"@.len());
    assert("line"@.len() != "character"@.len());
}

/// The `textDocument` member for a file.
fn text_document_json(uri: &str) -> (v: JsonValue)
    ensures
        jv(v) == text_document(uri@),
{
    obj1("uri", jstr(uri))
}

/// The position a request names.
fn position_json(req: &JsonValue) -> (r: Result<JsonValue, String>)
    ensures
        match r {
            Ok(v) => position_of(jv(*req)) == Ok::<Json, Seq<char>>(jv(v)),
            Err(e) => position_of(jv(*req)) == Err::<Json, Seq<char>>(e@),
        },
{
    let line = match get_u64(req, "line") {
        Some(l) => l,
        None => {
            return Err("missing field: line".to_owned());
        },
    };
    let column = match get_u64(req, "column") {
        Some(c) => c,
        None => {
            return Err("missing field: column".to_owned());
        },
    };
    Ok(obj2("line", JsonValue::UInt(line), "character", JsonValue::UInt(column)))
}

/// Builds the parameters of an LSP request for `method` on the file `path`
/// from the members of a tool request `req`; `cwd` is the working directory
/// against which a relative path is taken.
pub fn lsp_params(path: &str, method: &str, req: &JsonValue, cwd: &str) -> (r: Result<
    JsonValue,
    String,
>)
    ensures
        match r {
            Ok(v) => params_for(path@, method@, jv(*req), cwd@) == Ok::<Json, Seq<char>>(jv(v)),
            Err(e) => params_for(path@, method@, jv(*req), cwd@) == Err::<Json, Seq<char>>(e@),
        },
{
    let abs = absolute_path(path, cwd);
    let uri = concat("file://", abs.as_str());
    if str_eq(method, "textDocument/documentSymbol") {
        Ok(obj1("textDocument", text_document_json(uri.as_str())))
    } else if str_eq(method, "workspace/symbol") {
        match get_str(req, "query") {
            None => Err("missing field: query".to_owned()),
            Some(q) => Ok(obj1("query", jstr(q))),
        }
    } else if str_eq(method, "textDocument/rename") {
        let p = match position_json(req) {
            Ok(p) => p,
            Err(e) => {
                return Err(e);
            },
        };
        match get_str(req, "new_name") {
            None => Err("missing field: new_name".to_owned()),
            Some(n) => Ok(
                obj3(
                    "textDocument",
                    text_document_json(uri.as_str()),
                    "position",
                    p,
                    "newName",
                    jstr(n),
                ),
            ),
        }
    } else if str_eq(method, "textDocument/codeAction") {
        let start = match position_json(req) {
            Ok(p) => p,
            Err(e) => {
                return Err(e);
            },
        };
        let end_line = match get_u64(req, "end_line") {
            Some(l) => l,
            None => match get_u64(req, "line") {
                Some(l) => l,
                None => {
                    return Err("missing field: line".to_owned());
                },
            },
        };
        let end_column = match get_u64(req, "end_column") {
            Some(c) => c,
            None => match get_u64(req, "column") {
                Some(c) => c,
                None => {
                    return Err("missing field: column".to_owned());
                },
            },
        };
        let end = obj2("line", JsonValue::UInt(end_line), "character", JsonValue::UInt(end_column));
        Ok(
            obj3(
                "textDocument",
                text_document_json(uri.as_str()),
                "range",
                obj2("start", start, "end", end),
                "context",
                obj1("diagnostics", arr0()),
            ),
        )
    } else if str_eq(method, "textDocument/formatting") {
        let tab = match get_u64(req, "tab_size") {
            Some(t) => t,
            None => 4,
        };
        let spaces = match get_bool(req, "insert_spaces") {
            Some(b) => b,
            None => true,
        };
        Ok(
            obj2(
                "textDocument",
                text_document_json(uri.as_str()),
                "options",
                obj2("tabSize", JsonValue::UInt(tab), "insertSpaces", JsonValue::Bool(spaces)),
            ),
        )
    } else if str_eq(method, "textDocument/hover") || str_eq(method, "textDocument/definition")
        || str_eq(method, "textDocument/typeDefinition") || str_eq(
        method,
        "textDocument/implementation",
    ) || str_eq(method, "textDocument/references") || str_eq(method, "textDocument/completion")
        || str_eq(method, "textDocument/signatureHelp") || str_eq(
        method,
        "textDocument/prepareRename",
    ) {
        let p = match position_json(req) {
            Ok(p) => p,
            Err(e) => {
                return Err(e);
            },
        };
        if str_eq(method, "textDocument/references") {
            Ok(
                obj3(
                    "textDocument",
                    text_document_json(uri.as_str()),
                    "position",
                    p,
                    "context",
                    obj1("includeDeclaration", JsonValue::Bool(true)),
                ),
            )
        } else {
            Ok(obj2("textDocument", text_document_json(uri.as_str()), "position", p))
        }
    } else {
        Err(concat("unsupported LSP method: ", method))
    }
}

/// The notification that opens a document in a session.
pub open spec fn did_open_json(path: Seq<char>, language_id: Seq<char>, text: Seq<char>) -> Json {
    Json::Object(
        seq![
            ("jsonrpc"@, Json::Str("2.0"@)),
            ("method"@, Json::Str("textDocument/didOpen"@)),
            (
                "params"@,
                Json::Object(
                    seq![
                        (
                            "textDocument"@,
                            Json::Object(
                                seq![
                                    ("uri"@, Json::Str(file_uri(path))),
                                    ("languageId"@, Json::Str(language_id)),
                                    ("version"@, Json::UInt(1)),
                                    ("text"@, Json::Str(text)),
                                ],
                            ),
                        ),
                    ],
                ),
            ),
        ],
    )
}

/// The notification that opens a document in a session.
pub fn did_open_message(path: &str, language_id: &str, text: &str) -> (v: JsonValue)
    ensures
        jv(v) == did_open_json(path@, language_id@, text@),
{
    let uri = concat("file://", path);
    let doc = obj4(
        "uri",
        jstr(uri.as_str()),
        "languageId",
        jstr(language_id),
        "version",
        JsonValue::UInt(1),
        "text",
        jstr(text),
    );
    obj3(
        "jsonrpc",
        jstr("2.0"),
        "method",
        jstr("textDocument/didOpen"),
        "params",
        obj1("textDocument", doc),
    )
}

/// The notification that replaces a document's text with version `version`.
pub open spec fn did_change_json(path: Seq<char>, version: int, text: Seq<char>) -> Json {
    Json::Object(
        seq![
            ("jsonrpc"@, Json::Str("2.0"@)),
            ("method"@, Json::Str("textDocument/didChange"@)),
            (
                "params"@,
                Json::Object(
                    seq![
                        (
                            "textDocument"@,
                            Json::Object(
                                seq![
                                    ("uri"@, Json::Str(file_uri(path))),
                                    ("version"@, int_json(version)),
                                ],
                            ),
                        ),
                        (
                            "contentChanges"@,
                            Json::Array(seq![Json::Object(seq![("text"@, Json::Str(text))])]),
                        ),
                    ],
                ),
            ),
        ],
    )
}

/// The notification that replaces a document's text with version `version`.
pub fn did_change_message(path: &str, version: i32, text: &str) -> (v: JsonValue)
    ensures
        jv(v) == did_change_json(path@, version as int, text@),
{
    let uri = concat("file://", path);
    let doc = obj2("uri", jstr(uri.as_str()), "version", jint(version as i64));
    let changes = arr1(obj1("text", jstr(text)));
    obj3(
        "jsonrpc",
        jstr("2.0"),
        "method",
        jstr("textDocument/didChange"),
        "params",
        obj2("textDocument", doc, "contentChanges", changes),
    )
}

/// A request with id `id`.
pub open spec fn request_json(id: u64, method: Seq<char>, params: Json) -> Json {
    Json::Object(
        seq![
            ("jsonrpc"@, Json::Str("2.0"@)),
            ("id"@, Json::UInt(id)),
            ("method"@, Json::Str(method)),
            ("params"@, params),
        ],
    )
}

/// A request with id `id`.
pub fn request_message(id: u64, method: &str, params: JsonValue) -> (v: JsonValue)
    ensures
        jv(v) == request_json(id, method@, jv(params)),
{
    obj4("jsonrpc", jstr("2.0"), "id", JsonValue::UInt(id), "method", jstr(method), "params", params)
}

/// The `initialize` request (id 1) for a session rooted at `root`, sent by
/// the process `process_id`.
pub open spec fn initialize_json(process_id: u32, root: Seq<char>) -> Json {
    Json::Object(
        seq![
            ("jsonrpc"@, Json::Str("2.0"@)),
            ("id"@, Json::UInt(1)),
            ("method"@, Json::Str("initialize"@)),
            (
                "params"@,
                Json::Object(
                    seq![
                        ("processId"@, Json::UInt(process_id as u64)),
                        ("rootUri"@, Json::Str(file_uri(root))),
                        (
                            "workspaceFolders"@,
                            Json::Array(
                                seq![
                                    Json::Object(
                                        seq![
                                            ("uri"@, Json::Str(file_uri(root))),
                                            ("name"@, Json::Str("workspace"@)),
                                        ],
                                    ),
                                ],
                            ),
                        ),
                        (
                            "clientInfo"@,
                            Json::Object(
                                seq![("name"@, Json::Str("ws"@)), ("version"@, Json::Str("0.1.0"@))],
                            ),
                        ),
                        (
                            "capabilities"@,
                            Json::Object(
                                seq![
                                    (
                                        "textDocument"@,
                                        Json::Object(
                                            seq![
                                                (
                                                    "publishDiagnostics"@,
                                                    Json::Object(
                                                        seq![
                                                            (
                                                                "relatedInformation"@,
                                                                Json::Bool(true),
                                                            ),
                                                        ],
                                                    ),
                                                ),
                                            ],
                                        ),
                                    ),
                                ],
                            ),
                        ),
                    ],
                ),
            ),
        ],
    )
}

/// The `initialize` request (id 1) for a session rooted at `root`.
pub fn initialize_message(process_id: u32, root: &str) -> (v: JsonValue)
    ensures
        jv(v) == initialize_json(process_id, root@),
{
    let uri = concat("file://", root);
    let folders = arr1(obj2("uri", jstr(uri.as_str()), "name", jstr("workspace")));
    let client = obj2("name", jstr("ws"), "version", jstr("0.1.0"));
    let caps = obj1(
        "textDocument",
        obj1("publishDiagnostics", obj1("relatedInformation", JsonValue::Bool(true))),
    );
    let params = obj5(
        "processId",
        JsonValue::UInt(process_id as u64),
        "rootUri",
        jstr(uri.as_str()),
        "workspaceFolders",
        folders,
        "clientInfo",
        client,
        "capabilities",
        caps,
    );
    obj4(
        "jsonrpc",
        jstr("2.0"),
        "id",
        JsonValue::UInt(1),
        "method",
        jstr("initialize"),
        "params",
        params,
    )
}

/// The `initialized` notification that follows the answer to `initialize`.
pub fn initialized_message() -> (v: JsonValue)
    ensures
        jv(v) == Json::Object(
            seq![
                ("jsonrpc"@, Json::Str("2.0"@)),
                ("method"@, Json::Str("initialized"@)),
                ("params"@, Json::Object(seq![])),
            ],
        ),
{
    obj3("jsonrpc", jstr("2.0"), "method", jstr("initialized"), "params", obj0())
}

/// What a message from a server is.
pub enum Incoming {
    /// It names a method: a notification (or a request) from the server.
    Notification,
    /// It answers the request with this id.
    Response(u64),
    /// Neither.
    Other,
}

/// What a message from a server is, by its members.
pub open spec fn incoming_kind(msg: Json) -> Incoming {
    if js_str(js_get(msg, "method"@)) is Some {
        Incoming::Notification
    } else {
        match js_u64(js_get(msg, "id"@)) {
            Some(id) => Incoming::Response(id),
            None => Incoming::Other,
        }
    }
}

/// Tells a server's notifications from its answers.
pub fn classify_incoming(msg: &JsonValue) -> (r: Incoming)
    ensures
        r == incoming_kind(jv(*msg)),
{
    if get_str(msg, "method").is_some() {
        Incoming::Notification
    } else {
        match get_u64(msg, "id") {
            Some(id) => Incoming::Response(id),
            None => Incoming::Other,
        }
    }
}

/// Whether a message answers the `initialize` request.
pub fn answers_initialize(msg: &JsonValue) -> (b: bool)
    ensures
        b == (js_u64(js_get(jv(*msg), "id"@)) == Some(1u64)),
{
    match get_u64(msg, "id") {
        Some(id) => id == 1,
        None => false,
    }
}

/// The id handed out after `x`: the next one, wrapping to 0.
pub open spec fn next_id(x: u64) -> u64 {
    if x == u64::MAX {
        0
    } else {
        (x + 1) as u64
    }
}

/// The id that `k` takes after starting at `start` hand out.
pub open spec fn id_after(start: u64, k: nat) -> u64
    decreases k,
{
    if k == 0 {
        start
    } else {
        next_id(id_after(start, (k - 1) as nat))
    }
}

/// Successive ids count up from the start, modulo 2^64.
proof fn lemma_id_after(start: u64, k: nat)
    ensures
        id_after(start, k) as int == (start + k) % 0x1_0000_0000_0000_0000,
    decreases k,
{
    if k > 0 {
        lemma_id_after(start, (k - 1) as nat);
        let a = start + k - 1;
        assert(id_after(start, k) as int == (a + 1) % 0x1_0000_0000_0000_0000) by {
            assert(a % 0x1_0000_0000_0000_0000 == 0xffff_ffff_ffff_ffff ==> (a + 1)
                % 0x1_0000_0000_0000_0000 == 0);
            assert(a % 0x1_0000_0000_0000_0000 < 0xffff_ffff_ffff_ffff ==> (a + 1)
                % 0x1_0000_0000_0000_0000 == a % 0x1_0000_0000_0000_0000 + 1);
        }
    }
}

/// Requests are told apart by id: of fewer than 2^64 successive ids, no
/// two are the same, so an answer is routed to the one request waiting
/// for it.
pub proof fn law_request_ids_distinct(start: u64, i: nat, j: nat)
    requires
        i < j < 0x1_0000_0000_0000_0000,
    ensures
        id_after(start, i) != id_after(start, j),
{
    lemma_id_after(start, i);
    lemma_id_after(start, j);
    let a = start + i;
    let b = start + j;
    assert(a % 0x1_0000_0000_0000_0000 != b % 0x1_0000_0000_0000_0000) by {
        assert(0 < b - a < 0x1_0000_0000_0000_0000);
    }
}

/// No request id is the one the `initialize` request uses: ids start at 2,
/// and the first 2^64 - 1 of them never come round to 1.
pub proof fn law_request_ids_avoid_initialize(k: nat)
    requires
        k < 0xffff_ffff_ffff_ffff,
    ensures
        id_after(2, k) != 1,
{
    lemma_id_after(2, k);
}

/// The ids given to requests; `1` is the `initialize` request's.
pub struct RequestIds {
    pub next: u64,
}

impl RequestIds {
    /// Ids start after the `initialize` request's.
    pub fn new() -> (r: Self)
        ensures
            r.next == 2,
    {
        RequestIds { next: 2 }
    }

    /// Hands out the next id (an atomic `fetch_add(1)`, which wraps).
    pub fn take(&mut self) -> (id: u64)
        ensures
            id == old(self).next,
            final(self).next == next_id(old(self).next),
    {
        let id = self.next;
        self.next = if id == u64::MAX {
            0
        } else {
            id + 1
        };
        id
    }
}

/// The name that `list_servers` gives a root mode.
pub open spec fn root_mode_label(m: RootMode) -> Seq<char> {
    match m {
        RootMode::Workspace => "workspace"@,
        RootMode::Project => "project"@,
        RootMode::ProjectOrDir => "project_or_dir"@,
    }
}

/// The name of a root mode.
pub fn root_mode_name(m: RootMode) -> (r: &'static str)
    ensures
        r@ == root_mode_label(m),
{
    match m {
        RootMode::Workspace => "workspace",
        RootMode::Project => "project",
        RootMode::ProjectOrDir => "project_or_dir",
    }
}

/// How `list_servers` describes a server.
pub open spec fn server_json(s: ServerView) -> Json {
    Json::Object(
        seq![
            ("id"@, Json::Str(s.id)),
            ("language_id"@, Json::Str(s.language_id)),
            ("extensions"@, Json::Array(s.extensions.map_values(|e: Seq<char>| Json::Str(e)))),
            ("binary"@, Json::Str(s.binary)),
            ("root_mode"@, Json::Str(root_mode_label(s.root_mode))),
        ],
    )
}

/// A list of strings as a JSON array.
fn str_array(v: &[&str]) -> (r: JsonValue)
    ensures
        jv(r) == Json::Array(strs(v@).map_values(|e: Seq<char>| Json::Str(e))),
{
    let mut items: Vec<JsonValue> = Vec::new();
    let mut i: usize = 0;
    while i < v.len()
        invariant
            i <= v@.len(),
            items@.len() == i,
            forall|k: int| 0 <= k < i ==> #[trigger] jv(items@[k]) == Json::Str(v@[k]@),
        decreases v@.len() - i,
    {
        items.push(jstr(v[i]));
        i += 1;
    }
    proof {
        lemma_jv_items(items@);
        assert(jv_items(items@) =~= strs(v@).map_values(|e: Seq<char>| Json::Str(e)));
    }
    arr(items)
}

/// A description of every known server: id, language, extensions, binary
/// and root mode.
pub fn list_servers() -> (r: Vec<JsonValue>)
    ensures
        r@.len() == server_table().len(),
        forall|i: int| 0 <= i < r@.len() ==> #[trigger] jv(r@[i]) == server_json(server_table()[i]),
{
    let table = servers();
    let mut out: Vec<JsonValue> = Vec::new();
    let mut i: usize = 0;
    while i < table.len()
        invariant
            i <= table@.len(),
            server_views(table@) == server_table(),
            out@.len() == i,
            forall|k: int| 0 <= k < i ==> #[trigger] jv(out@[k]) == server_json(server_table()[k]),
        decreases table@.len() - i,
    {
        let s = table[i];
        assert(server_table()[i as int] == s@);
        out.push(
            obj5(
                "id",
                jstr(s.id),
                "language_id",
                jstr(s.language_id),
                "extensions",
                str_array(s.extensions),
                "binary",
                jstr(s.binary),
                "root_mode",
                jstr(root_mode_name(s.root_mode)),
            ),
        );
        i += 1;
    }
    out
}

/// The files whose presence marks a directory as a project root.
pub open spec fn root_markers_list() -> Seq<Seq<char>> {
    seq![
        "package.json"@,
        "package-lock.json"@,
        "yarn.lock"@,
        "pnpm-lock.yaml"@,
        "bun.lockb"@,
        "bun.lock"@,
        "Cargo.toml"@,
        "Cargo.lock"@,
        "go.mod"@,
        "go.work"@,
        "pyproject.toml"@,
        "requirements.txt"@,
        "setup.py"@,
        "compile_commands.json"@,
        ".clangd"@,
    ]
}

/// The files whose presence marks a directory as a project root.
pub fn root_markers() -> (r: Vec<&'static str>)
    ensures
        strs(r@) == root_markers_list(),
{
    let r = vec![
        "package.json",
        "package-lock.json",
        "yarn.lock",
        "pnpm-lock.yaml",
        "bun.lockb",
        "bun.lock",
        "Cargo.toml",
        "Cargo.lock",
        "go.mod",
        "go.work",
        "pyproject.toml",
        "requirements.txt",
        "setup.py",
        "compile_commands.json",
        ".clangd",
    ];
    assert(strs(r@) =~= root_markers_list());
    r
}

/// The first of `dirs[i..]` that holds a project marker.
pub open spec fn first_marked(dirs: Seq<(Seq<char>, bool)>, i: int) -> Option<Seq<char>>
    decreases dirs.len() - i,
{
    if i < 0 || i >= dirs.len() {
        None
    } else if dirs[i].1 {
        Some(dirs[i].0)
    } else {
        first_marked(dirs, i + 1)
    }
}

/// The root of a session for a file, by the server's root mode.
pub open spec fn root_for(
    mode: RootMode,
    workspace: Seq<char>,
    dir: Seq<char>,
    ancestors: Seq<(Seq<char>, bool)>,
) -> Seq<char> {
    match mode {
        RootMode::Workspace => workspace,
        _ => match first_marked(ancestors, 0) {
            Some(d) => d,
            None => match mode {
                RootMode::Project => workspace,
                _ => dir,
            },
        },
    }
}

/// The views of directory entries paired with a flag.
pub open spec fn flagged_views(v: Seq<(String, bool)>) -> Seq<(Seq<char>, bool)> {
    v.map_values(|p: (String, bool)| (p.0@, p.1))
}

/// Chooses the root of a session: the workspace for servers rooted there;
/// otherwise the nearest of the file's directory and its ancestors
/// (`ancestors`, nearest first, each with whether it holds a project marker)
/// that holds a marker, else the workspace (`Project`) or the file's
/// directory `dir` (`ProjectOrDir`).
pub fn find_root(mode: RootMode, workspace: &str, dir: &str, ancestors: &Vec<(String, bool)>) -> (r:
    String)
    ensures
        r@ == root_for(mode, workspace@, dir@, flagged_views(ancestors@)),
{
    let ghost a = flagged_views(ancestors@);
    match mode {
        RootMode::Workspace => {
            return workspace.to_owned();
        },
        _ => {},
    }
    let mut i: usize = 0;
    while i < ancestors.len()
        invariant
            i <= ancestors@.len(),
            a == flagged_views(ancestors@),
            !(mode is Workspace),
            first_marked(a, 0) == first_marked(a, i as int),
        decreases ancestors@.len() - i,
    {
        if ancestors[i].1 {
            return ancestors[i].0.clone();
        }
        i += 1;
    }
    match mode {
        RootMode::Project => workspace.to_owned(),
        _ => dir.to_owned(),
    }
}

/// Directories that a scan of the workspace does not enter.
pub open spec fn skipped_dir(name: Seq<char>) -> bool {
    has_prefix(name, seq!['.']) || name == "node_modules"@ || name == "target"@
}

/// Whether a scan of the workspace skips the directory named `name`: hidden
/// directories, `node_modules` and `target`.
pub fn skip_dir(name: &str) -> (b: bool)
    ensures
        b == skipped_dir(name@),
{
    proof {
        reveal_strlit(".");
        assert("."@ =~= seq!['.']);
    }
    str_starts_with(name, ".") || str_eq(name, "node_modules") || str_eq(name, "target")
}

/// Whether some known server serves the file at `path`.
pub open spec fn has_server(path: Seq<char>) -> bool {
    extension_key(path).len() > 0 && serving(server_table(), extension_key(path)).len() > 0
}

/// Whether some known server serves the file at `path`.
pub fn is_served(path: &str) -> (b: bool)
    ensures
        b == has_server(path@),
{
    let ext = extension_for(path);
    if ext.as_str().is_empty() {
        return false;
    }
    let v = for_extension(ext.as_str());
    v.len() > 0
}

/// A diagnostic that a server published for a file.
#[derive(Debug)]
pub struct Diagnostic {
    pub path: String,
    pub line: usize,
    pub column: usize,
    pub severity: u8,
    pub message: String,
    pub code: Option<String>,
}

/// A diagnostic as plain values.
pub struct DiagnosticView {
    pub path: Seq<char>,
    pub line: usize,
    pub column: usize,
    pub severity: u8,
    pub message: Seq<char>,
    pub code: Option<Seq<char>>,
}

/// The view of an optional string.
pub open spec fn opt_view(s: Option<String>) -> Option<Seq<char>> {
    match s {
        Some(x) => Some(x@),
        None => None,
    }
}

impl View for Diagnostic {
    type V = DiagnosticView;

    open spec fn view(&self) -> DiagnosticView {
        DiagnosticView {
            path: self.path@,
            line: self.line,
            column: self.column,
            severity: self.severity,
            message: self.message@,
            code: opt_view(self.code),
        }
    }
}

impl Clone for Diagnostic {
    fn clone(&self) -> (r: Self)
        ensures
            r@ == self@,
    {
        let code = match &self.code {
            Some(c) => Some(c.clone()),
            None => None,
        };
        Diagnostic {
            path: self.path.clone(),
            line: self.line,
            column: self.column,
            severity: self.severity,
            message: self.message.clone(),
            code,
        }
    }
}

/// The views of a list of diagnostics.
pub open spec fn diag_views(v: Seq<Diagnostic>) -> Seq<DiagnosticView> {
    v.map_values(|d: Diagnostic| d@)
}

/// A copy of a list of diagnostics.
pub fn copy_diagnostics(v: &Vec<Diagnostic>) -> (r: Vec<Diagnostic>)
    ensures
        diag_views(r@) == diag_views(v@),
{
    let mut r: Vec<Diagnostic> = Vec::new();
    let mut i: usize = 0;
    while i < v.len()
        invariant
            i <= v@.len(),
            r@.len() == i,
            forall|k: int| 0 <= k < i ==> #[trigger] r@[k]@ == v@[k]@,
        decreases v@.len() - i,
    {
        r.push(v[i].clone());
        i += 1;
    }
    assert(diag_views(r@) =~= diag_views(v@));
    r
}

/// The diagnostic that an entry of a `publishDiagnostics` notification
/// describes, if it has a range with a start: missing numbers count as 0,
/// a missing severity as 1 (an error), a missing message as empty.
pub open spec fn diagnostic_of(d: Json, path: Seq<char>) -> Option<DiagnosticView> {
    match js_get(d, "range"@) {
        None => None,
        Some(range) => match js_get(range, "start"@) {
            None => None,
            Some(start) => Some(
                DiagnosticView {
                    path: path,
                    line: (match js_u64(js_get(start, "line"@)) {
                        Some(n) => n,
                        None => 0,
                    }) as usize,
                    column: (match js_u64(js_get(start, "character"@)) {
                        Some(n) => n,
                        None => 0,
                    }) as usize,
                    severity: (match js_u64(js_get(d, "severity"@)) {
                        Some(n) => n,
                        None => 1,
                    }) as u8,
                    message: match js_str(js_get(d, "message"@)) {
                        Some(m) => m,
                        None => seq![],
                    },
                    code: js_str(js_get(d, "code"@)),
                },
            ),
        },
    }
}

/// The diagnostics that the entries `ds` describe, in order.
pub open spec fn diagnostics_of(ds: Seq<Json>, path: Seq<char>) -> Seq<DiagnosticView>
    decreases ds.len(),
{
    if ds.len() == 0 {
        seq![]
    } else {
        let rest = diagnostics_of(ds.drop_last(), path);
        match diagnostic_of(ds.last(), path) {
            Some(d) => rest.push(d),
            None => rest,
        }
    }
}

/// The latest diagnostics of each file, as the store holds them.
pub type DiagnosticMap = Map<Seq<char>, Seq<DiagnosticView>>;

/// The file that a diagnostics notification is about, and its diagnostics.
pub open spec fn published(msg: Json) -> Option<(Seq<char>, Seq<DiagnosticView>)> {
    match js_get(msg, "params"@) {
        None => None,
        Some(params) => match js_str(js_get(params, "uri"@)) {
            None => None,
            Some(uri) => match js_array(js_get(params, "diagnostics"@)) {
                None => None,
                Some(ds) => {
                    let path = match strip_prefix(uri, "file://"@) {
                        Some(p) => p,
                        None => uri,
                    };
                    Some((path, diagnostics_of(ds, path)))
                },
            },
        },
    }
}

/// The store after a message from a server: a diagnostics notification
/// replaces the file's diagnostics, even with none; any other message
/// leaves the store as it was.
pub open spec fn after_message(m: DiagnosticMap, msg: Json) -> DiagnosticMap {
    match published(msg) {
        Some((path, ds)) => m.insert(path, ds),
        None => m,
    }
}

/// The latest diagnostics that servers published, by file.
pub struct DiagnosticStore {
    pub table: Table<Vec<Diagnostic>>,
}

impl View for DiagnosticStore {
    type V = DiagnosticMap;

    open spec fn view(&self) -> DiagnosticMap {
        Map::new(
            |k: Seq<char>| self.table.map().contains_key(k),
            |k: Seq<char>| diag_views(self.table.map()[k]@),
        )
    }
}

impl DiagnosticStore {
    /// An empty store.
    pub fn new() -> (s: Self)
        ensures
            s@ == DiagnosticMap::empty(),
            s.table.seq().len() == 0,
    {
        let s = DiagnosticStore { table: Table::new() };
        assert(s@ =~= DiagnosticMap::empty());
        s
    }

    /// Records `diags` as the latest diagnostics of `path`.
    pub fn publish(&mut self, path: String, diags: Vec<Diagnostic>)
        ensures
            final(self)@ == old(self)@.insert(path@, diag_views(diags@)),
    {
        let ghost p = path@;
        let ghost d = diag_views(diags@);
        self.table.insert(path, diags);
        assert(self@ =~= old(self)@.insert(p, d));
    }

    /// Forgets what was published for `path`.
    pub fn clear(&mut self, path: &str)
        ensures
            final(self)@ == old(self)@.remove(path@),
    {
        let _ = self.table.remove(path);
        assert(self@ =~= old(self)@.remove(path@));
    }

    /// The latest diagnostics published for `path`, if any were.
    pub fn latest(&self, path: &str) -> (r: Option<Vec<Diagnostic>>)
        ensures
            match r {
                Some(v) => self@.contains_key(path@) && self@[path@] == diag_views(v@),
                None => !self@.contains_key(path@),
            },
    {
        match self.table.get(path) {
            Some(v) => Some(copy_diagnostics(v)),
            None => None,
        }
    }
}

/// The diagnostics that the entries `ds` describe, for the file `path`.
fn collect_diagnostics(ds: &Vec<JsonValue>, path: &str) -> (r: Vec<Diagnostic>)
    ensures
        diag_views(r@) == diagnostics_of(jv_items(ds@), path@),
{
    proof {
        lemma_jv_items(ds@);
    }
    let mut r: Vec<Diagnostic> = Vec::new();
    let mut i: usize = 0;
    while i < ds.len()
        invariant
            i <= ds@.len(),
            jv_items(ds@).len() == ds@.len(),
            forall|k: int| 0 <= k < ds@.len() ==> #[trigger] jv_items(ds@)[k] == jv(ds@[k]),
            diag_views(r@) == diagnostics_of(jv_items(ds@).take(i as int), path@),
        decreases ds@.len() - i,
    {
        let d = &ds[i];
        let ghost items = jv_items(ds@);
        proof {
            assert(items.take(i + 1).drop_last() =~= items.take(i as int));
            assert(items.take(i + 1).last() == jv(*d));
        }
        let start = match d.get("range") {
            Some(range) => range.get("start"),
            None => None,
        };
        match start {
            Some(start) => {
                let line = match get_u64(start, "line") {
                    Some(n) => n,
                    None => 0,
                };
                let column = match get_u64(start, "character") {
                    Some(n) => n,
                    None => 0,
                };
                let severity = match get_u64(d, "severity") {
                    Some(n) => n,
                    None => 1,
                };
                let message = match get_str(d, "message") {
                    Some(m) => m.to_owned(),
                    None => String::new(),
                };
                let code = match get_str(d, "code") {
                    Some(c) => Some(c.to_owned()),
                    None => None,
                };
                let ghost old_r = r@;
                r.push(
                    Diagnostic {
                        path: path.to_owned(),
                        line: line as usize,
                        column: column as usize,
                        severity: severity as u8,
                        message,
                        code,
                    },
                );
                proof {
                    assert(diag_views(r@) =~= diag_views(old_r).push(r@.last()@));
                }
            },
            None => {},
        }
        i += 1;
    }
    proof {
        assert(jv_items(ds@).take(ds@.len() as int) =~= jv_items(ds@));
    }
    r
}

/// Takes in a message from a server: a `publishDiagnostics` notification
/// replaces what the store holds for its file (`file://` taken off the
/// URI), even when it lists no diagnostics.
pub fn process_message(msg: &JsonValue, store: &mut DiagnosticStore)
    ensures
        final(store)@ == after_message(old(store)@, jv(*msg)),
{
    let params = match msg.get("params") {
        Some(p) => p,
        None => {
            return;
        },
    };
    let uri = match get_str(params, "uri") {
        Some(u) => u,
        None => {
            return;
        },
    };
    let ds = match params.get("diagnostics") {
        Some(d) => match d.as_array() {
            Some(a) => a,
            None => {
                return;
            },
        },
        None => {
            return;
        },
    };
    let path = match strip_prefix_str(uri, "file://") {
        Some(p) => p,
        None => uri.to_owned(),
    };
    let collected = collect_diagnostics(ds, path.as_str());
    store.publish(path, collected);
}

/// How a sync reaches a session: the first sync of a document opens it,
/// later ones change it.
pub enum SyncKind {
    Open,
    Change,
}

/// The version each document has been synced at, by path.
pub struct DocumentVersions {
    pub table: Table<i32>,
}

impl View for DocumentVersions {
    type V = Map<Seq<char>, i32>;

    open spec fn view(&self) -> Map<Seq<char>, i32> {
        self.table.map()
    }
}

/// The version of the next sync of `path`: one more than the last, or 1.
pub open spec fn next_version(m: Map<Seq<char>, i32>, path: Seq<char>) -> int {
    if m.contains_key(path) {
        m[path] + 1
    } else {
        1
    }
}

/// A sync of `path` with text `text`: the versions after it and the
/// notification it sends.
pub open spec fn sync_step(
    m: Map<Seq<char>, i32>,
    path: Seq<char>,
    language_id: Seq<char>,
    text: Seq<char>,
) -> (Map<Seq<char>, i32>, Json) {
    let v = next_version(m, path);
    (
        m.insert(path, v as i32),
        if v == 1 {
            did_open_json(path, language_id, text)
        } else {
            did_change_json(path, v, text)
        },
    )
}

impl DocumentVersions {
    /// No document synced yet.
    pub fn new() -> (d: Self)
        ensures
            d@ == Map::<Seq<char>, i32>::empty(),
    {
        DocumentVersions { table: Table::new() }
    }

    /// Counts one more sync of `path` and hands back its version.
    pub fn bump(&mut self, path: &str) -> (v: i32)
        requires
            !old(self)@.contains_key(path@) || old(self)@[path@] < i32::MAX,
        ensures
            v == next_version(old(self)@, path@),
            final(self)@ == old(self)@.insert(path@, v),
    {
        let v = match self.table.get(path) {
            Some(n) => *n + 1,
            None => 1,
        };
        self.table.insert(path.to_owned(), v);
        v
    }
}

/// The notification that syncs a document's current text with its session:
/// `didOpen` the first time, `didChange` with the next version after that.
pub fn sync_document(versions: &mut DocumentVersions, path: &str, language_id: &str, text: &str) -> (r:
    (SyncKind, JsonValue))
    requires
        !old(versions)@.contains_key(path@) || old(versions)@[path@] < i32::MAX,
    ensures
        (final(versions)@, jv(r.1)) == sync_step(old(versions)@, path@, language_id@, text@),
        (r.0 is Open) == (next_version(old(versions)@, path@) == 1),
{
    let v = versions.bump(path);
    if v == 1 {
        (SyncKind::Open, did_open_message(path, language_id, text))
    } else {
        (SyncKind::Change, did_change_message(path, v, text))
    }
}

/// A document is opened once and changed, with versions counting up by one,
/// every time after that: two syncs of a document not synced before send
/// `didOpen` (version 1) and then `didChange` with version 2.
pub proof fn law_open_once_then_change(
    m: Map<Seq<char>, i32>,
    path: Seq<char>,
    language_id: Seq<char>,
    t1: Seq<char>,
    t2: Seq<char>,
)
    requires
        !m.contains_key(path),
    ensures
        ({
            let (m1, first) = sync_step(m, path, language_id, t1);
            let (m2, second) = sync_step(m1, path, language_id, t2);
            &&& first == did_open_json(path, language_id, t1)
            &&& second == did_change_json(path, 2, t2)
            &&& m2[path] == 2
        }),
{
}

/// A later sync of a document sends the version after the last one.
pub proof fn law_versions_increase(
    m: Map<Seq<char>, i32>,
    path: Seq<char>,
    language_id: Seq<char>,
    text: Seq<char>,
)
    requires
        m.contains_key(path),
        1 <= m[path] < i32::MAX,
    ensures
        ({
            let (m1, msg) = sync_step(m, path, language_id, text);
            &&& m1[path] == m[path] + 1
            &&& msg == did_change_json(path, m[path] + 1, text)
        }),
{
}

/// Publishing diagnostics for a file makes them its latest ones, even an
/// empty list; no other file's diagnostics change.
pub proof fn law_latest_diagnostics_by_file(m: DiagnosticMap, msg: Json, other: Seq<char>)
    requires
        published(msg) is Some,
    ensures
        ({
            let (path, ds) = published(msg).unwrap();
            let m1 = after_message(m, msg);
            &&& m1.contains_key(path)
            &&& m1[path] == ds
            &&& other != path ==> (m1.contains_key(other) == m.contains_key(other) && (
            m.contains_key(other) ==> m1[other] == m[other]))
        }),
{
}

/// Where a diagnostic entry's range has a start, the stored diagnostic
/// takes its line from the start's `line` and its column from the start's
/// `character`, each on its own and 0 when missing; its severity is the
/// entry's `severity` (1 when missing) and its message the entry's
/// `message`.
pub proof fn law_diagnostic_position(d: Json, path: Seq<char>, range: Json, start: Json)
    requires
        js_get(d, "range"@) == Some(range),
        js_get(range, "start"@) == Some(start),
    ensures
        diagnostic_of(d, path) is Some,
        diagnostic_of(d, path).unwrap().path == path,
        forall|l: u64| js_get(start, "line"@) == Some(Json::UInt(l)) ==> diagnostic_of(d, path).unwrap().line == l as usize,
        forall|c: u64| js_get(start, "character"@) == Some(Json::UInt(c)) ==> diagnostic_of(d, path).unwrap().column == c as usize,
        js_get(start, "line"@) is None ==> diagnostic_of(d, path).unwrap().line == 0,
        js_get(start, "character"@) is None ==> diagnostic_of(d, path).unwrap().column == 0,
        forall|s: u64| js_get(d, "severity"@) == Some(Json::UInt(s)) ==> diagnostic_of(d, path).unwrap().severity == s as u8,
        js_get(d, "severity"@) is None ==> diagnostic_of(d, path).unwrap().severity == 1,
        forall|t: Seq<char>| js_get(d, "message"@) == Some(Json::Str(t)) ==> diagnostic_of(d, path).unwrap().message == t,
{
}

/// Where the range of a diagnostic entry starts.
pub open spec fn range_start(d: Json) -> Json {
    js_get(js_get(d, "range"@).unwrap(), "start"@).unwrap()
}

/// Each entry with a range start is one diagnostic, in order.
proof fn lemma_diagnostics_of_each(ds: Seq<Json>, path: Seq<char>)
    requires
        forall|k: int| 0 <= k < ds.len() ==> #[trigger] diagnostic_of(ds[k], path) is Some,
    ensures
        diagnostics_of(ds, path).len() == ds.len(),
        forall|k: int| 0 <= k < ds.len() ==> #[trigger] diagnostics_of(ds, path)[k] == diagnostic_of(ds[k], path).unwrap(),
    decreases ds.len(),
{
    if ds.len() > 0 {
        let init = ds.drop_last();
        assert forall|k: int| 0 <= k < init.len() implies #[trigger] diagnostic_of(init[k], path) is Some by {
            assert(init[k] == ds[k]);
        }
        lemma_diagnostics_of_each(init, path);
        assert(diagnostic_of(ds[ds.len() - 1], path) is Some);
        assert forall|k: int| 0 <= k < ds.len() implies #[trigger] diagnostics_of(ds, path)[k] == diagnostic_of(ds[k], path).unwrap() by {
            if k < ds.len() - 1 {
                assert(init[k] == ds[k]);
            }
        }
    }
}

/// A `publishDiagnostics` notification for `file://` followed by a path
/// stores, for that path, one diagnostic per entry, in order, each at the
/// line and character that the entry's range starts at.
pub proof fn law_published_positions(m: DiagnosticMap, msg: Json, params: Json, path: Seq<char>, ds: Seq<Json>)
    requires
        js_get(msg, "params"@) == Some(params),
        js_get(params, "uri"@) == Some(Json::Str("file://"@ + path)),
        js_get(params, "diagnostics"@) == Some(Json::Array(ds)),
        forall|k: int| 0 <= k < ds.len() ==> (js_get(#[trigger] ds[k], "range"@) matches Some(range) && js_get(range, "start"@) is Some),
    ensures
        after_message(m, msg).contains_key(path),
        after_message(m, msg)[path].len() == ds.len(),
        forall|k: int| 0 <= k < ds.len() ==> (js_get(range_start(ds[k]), "line"@) matches Some(Json::UInt(l))
            ==> (#[trigger] after_message(m, msg)[path][k]).line == l as usize),
        forall|k: int| 0 <= k < ds.len() ==> (js_get(range_start(ds[k]), "character"@) matches Some(Json::UInt(c))
            ==> (#[trigger] after_message(m, msg)[path][k]).column == c as usize),
        forall|k: int| 0 <= k < ds.len() ==> #[trigger] after_message(m, msg)[path][k].path == path,
{
    reveal_strlit("file://");
    let uri = "file://"@ + path;
    assert(uri.subrange(0, 7) =~= "file://"@);
    assert(uri.subrange(7, uri.len() as int) =~= path);
    assert(strip_prefix(uri, "file://"@) == Some(path));
    assert forall|k: int| 0 <= k < ds.len() implies #[trigger] diagnostic_of(ds[k], path) is Some by {
        assert(js_get(ds[k], "range"@) matches Some(range) && js_get(range, "start"@) is Some);
    }
    lemma_diagnostics_of_each(ds, path);
}

/// A message that publishes no diagnostics leaves every file's diagnostics
/// as they were.
pub proof fn law_other_messages_keep_diagnostics(m: DiagnosticMap, msg: Json)
    requires
        published(msg) is None,
    ensures
        after_message(m, msg) == m,
{
}

/// Once a file's diagnostics are cleared, none are found for it until a
/// server publishes new ones: a reader never sees a stale set.
pub proof fn law_cleared_until_published(m: DiagnosticMap, path: Seq<char>, msgs: Seq<Json>)
    requires
        forall|i: int| 0 <= i < msgs.len() ==> match #[trigger] published(msgs[i]) {
            Some((p, _)) => p != path,
            None => true,
        },
    ensures
        !after_messages(m.remove(path), msgs).contains_key(path),
    decreases msgs.len(),
{
    if msgs.len() > 0 {
        let init = msgs.drop_last();
        assert forall|i: int| 0 <= i < init.len() implies match #[trigger] published(init[i]) {
            Some((p, _)) => p != path,
            None => true,
        } by {
            assert(init[i] == msgs[i]);
        }
        law_cleared_until_published(m, path, init);
        assert(published(msgs[msgs.len() - 1]) == published(msgs.last()));
    }
}

/// The store after a sequence of messages.
pub open spec fn after_messages(m: DiagnosticMap, msgs: Seq<Json>) -> DiagnosticMap
    decreases msgs.len(),
{
    if msgs.len() == 0 {
        m
    } else {
        after_message(after_messages(m, msgs.drop_last()), msgs.last())
    }
}

/// The language-server sessions that are running, keyed by server and
/// root; `H` is whatever the caller keeps to talk to a session.
pub struct SessionRegistry<H> {
    entries: Vec<(String, String, H)>,
}

/// The keys of the sessions in `e`.
pub open spec fn session_keys<H>(e: Seq<(String, String, H)>) -> Seq<(Seq<char>, Seq<char>)> {
    e.map_values(|x: (String, String, H)| (x.0@, x.1@))
}

impl<H> SessionRegistry<H> {
    #[verifier::type_invariant]
    spec fn wf(self) -> bool {
        session_keys(self.entries@).no_duplicates()
    }

    /// The (server, root) keys of the sessions, oldest first.
    pub closed spec fn keys(self) -> Seq<(Seq<char>, Seq<char>)> {
        session_keys(self.entries@)
    }

    /// The handle kept for session `i`.
    pub closed spec fn handle_at(self, i: int) -> H {
        self.entries@[i].2
    }

    /// No session yet.
    pub fn new() -> (r: Self)
        ensures
            r.keys() == Seq::<(Seq<char>, Seq<char>)>::empty(),
    {
        let r = SessionRegistry { entries: Vec::new() };
        assert(r.keys() =~= Seq::<(Seq<char>, Seq<char>)>::empty());
        r
    }

    /// Each key occurs once.
    pub fn keys_distinct(&self)
        ensures
            self.keys().no_duplicates(),
    {
        proof {
            use_type_invariant(self);
        }
    }

    /// The position of the session of `server_id` rooted at `root`.
    pub fn find(&self, server_id: &str, root: &str) -> (r: Option<usize>)
        ensures
            match r {
                Some(i) => i < self.keys().len() && self.keys()[i as int] == (server_id@, root@),
                None => !self.keys().contains((server_id@, root@)),
            },
    {
        let mut i: usize = 0;
        while i < self.entries.len()
            invariant
                i <= self.entries@.len(),
                forall|k: int| 0 <= k < i ==> self.keys()[k] != (server_id@, root@),
            decreases self.entries@.len() - i,
        {
            if str_eq(self.entries[i].0.as_str(), server_id) && str_eq(
                self.entries[i].1.as_str(),
                root,
            ) {
                return Some(i);
            }
            i += 1;
        }
        None
    }

    /// The handle of session `i`.
    pub fn handle(&self, i: usize) -> (h: &H)
        requires
            i < self.keys().len(),
        ensures
            *h == self.handle_at(i as int),
    {
        &self.entries[i].2
    }

    /// Registers a started session; a session already running for the same
    /// server and root is kept instead. Hands back the position of the
    /// session that serves the key.
    pub fn register(&mut self, server_id: String, root: String, h: H) -> (i: usize)
        ensures
            i < final(self).keys().len(),
            final(self).keys()[i as int] == (server_id@, root@),
            old(self).keys().contains((server_id@, root@)) ==> final(self).keys() == old(
                self,
            ).keys(),
            !old(self).keys().contains((server_id@, root@)) ==> final(self).keys() == old(
                self,
            ).keys().push((server_id@, root@)) && final(self).handle_at(i as int) == h,
    {
        proof {
            use_type_invariant(&*self);
        }
        match self.find(server_id.as_str(), root.as_str()) {
            Some(i) => i,
            None => {
                let ghost k0 = self.keys();
                let mut entries = Vec::new();
                std::mem::swap(&mut entries, &mut self.entries);
                let ghost key = (server_id@, root@);
                entries.push((server_id, root, h));
                proof {
                    assert(session_keys(entries@) =~= k0.push(key));
                    assert(session_keys(entries@).no_duplicates()) by {
                        let ks = session_keys(entries@);
                        assert forall|a: int, b: int|
                            0 <= a < ks.len() && 0 <= b < ks.len() && a != b implies ks[a]
                            != ks[b] by {
                            if a < k0.len() && b < k0.len() {
                                assert(ks[a] == k0[a]);
                                assert(ks[b] == k0[b]);
                            } else if a < k0.len() {
                                assert(ks[a] == k0[a]);
                            } else {
                                assert(ks[b] == k0[b]);
                            }
                        }
                    }
                }
                self.entries = entries;
                let n = self.entries.len();
                n - 1
            },
        }
    }
}

/// The (server, root) pairs of the running sessions, oldest first.
pub fn list_sessions<H>(reg: &SessionRegistry<H>) -> (r: Vec<(String, String)>)
    ensures
        r@.map_values(|p: (String, String)| (p.0@, p.1@)) == reg.keys(),
{
    let mut r: Vec<(String, String)> = Vec::new();
    let mut i: usize = 0;
    while i < reg.entries.len()
        invariant
            i <= reg.entries@.len(),
            r@.map_values(|p: (String, String)| (p.0@, p.1@)) == reg.keys().take(i as int),
        decreases reg.entries@.len() - i,
    {
        let e = &reg.entries[i];
        let ghost old_r = r@;
        r.push((e.0.clone(), e.1.clone()));
        proof {
            assert(reg.keys()[i as int] == (e.0@, e.1@));
            assert(reg.keys().take(i + 1) =~= reg.keys().take(i as int).push((e.0@, e.1@)));
            assert(r@.map_values(|p: (String, String)| (p.0@, p.1@)) =~= old_r.map_values(
                |p: (String, String)| (p.0@, p.1@),
            ).push((e.0@, e.1@)));
        }
        i += 1;
    }
    assert(reg.keys().take(i as int) =~= reg.keys());
    r
}

/// A session is started once per server and root: registering again for
/// a key that has a session keeps the one that runs, so no two sessions
/// ever share a key.
pub proof fn law_one_session_per_key(keys: Seq<(Seq<char>, Seq<char>)>, key: (Seq<char>, Seq<char>))
    requires
        keys.no_duplicates(),
        !keys.contains(key),
    ensures
        keys.push(key).no_duplicates(),
{
    let ks = keys.push(key);
    assert forall|a: int, b: int| 0 <= a < ks.len() && 0 <= b < ks.len() && a != b implies ks[a]
        != ks[b] by {
        if a < keys.len() && b < keys.len() {
        } else if a < keys.len() {
            assert(ks[b] == key);
            assert(ks[a] == keys[a]);
        } else {
            assert(ks[a] == key);
            assert(ks[b] == keys[b]);
        }
    }
}

/// The path that `which` printed, if it succeeded and printed one.
pub open spec fn found_path(success: bool, stdout: Seq<char>) -> Option<Seq<char>> {
    if success && trim(stdout).len() > 0 {
        Some(trim(stdout))
    } else {
        None
    }
}

/// Reads the answer of `which` when looking for a server's binary: the
/// trimmed path it printed, if it succeeded and printed one.
pub fn binary_path(success: bool, stdout: &str) -> (r: Option<String>)
    ensures
        match r {
            Some(p) => found_path(success, stdout@) == Some(p@),
            None => found_path(success, stdout@) is None,
        },
{
    if !success {
        return None;
    }
    let p = trim_str(stdout);
    if p.as_str().is_empty() {
        None
    } else {
        Some(p)
    }
}

/// A package that server `s` needs: one of its nix packages, or its binary.
pub open spec fn provides(s: ServerView, p: Seq<char>) -> bool {
    s.nix_packages.contains(p) || s.binary == p
}

/// A package that some known server needs.
pub open spec fn needed(p: Seq<char>) -> bool {
    exists|i: int| 0 <= i < server_table().len() && provides(#[trigger] server_table()[i], p)
}

/// A package that a server of one of the extensions `exts` needs.
pub open spec fn active(p: Seq<char>, exts: Seq<Seq<char>>) -> bool {
    exists|i: int, j: int|
        0 <= i < server_table().len() && 0 <= j < exts.len() && #[trigger] server_table()[
            i
        ].extensions.contains(#[trigger] exts[j]) && provides(server_table()[i], p)
}

/// Adds the packages that server `s` needs to the list `v`.
fn add_provided(v: &mut Vec<String>, s: LspServer)
    requires
        views(old(v)@).no_duplicates(),
    ensures
        views(final(v)@).no_duplicates(),
        forall|p: Seq<char>| #[trigger]
            views(final(v)@).contains(p) <==> (views(old(v)@).contains(p) || provides(s@, p)),
{
    let ghost v0 = views(v@);
    let mut k: usize = 0;
    while k < s.nix_packages.len()
        invariant
            k <= s.nix_packages@.len(),
            views(v@).no_duplicates(),
            forall|p: Seq<char>| #[trigger]
                views(v@).contains(p) <==> (v0.contains(p) || strs(s.nix_packages@).take(
                    k as int,
                ).contains(p)),
        decreases s.nix_packages@.len() - k,
    {
        let ghost before = views(v@);
        push_unique(v, s.nix_packages[k]);
        proof {
            let t = strs(s.nix_packages@);
            let t1 = t.take(k + 1);
            let t0 = t.take(k as int);
            assert(t1 =~= t0.push(t[k as int]));
            assert forall|p: Seq<char>| #[trigger] views(v@).contains(p) <==> (v0.contains(p)
                || t1.contains(p)) by {
                if t1.contains(p) && !t0.contains(p) {
                    let j = choose|j: int| 0 <= j < t1.len() && t1[j] == p;
                    if j < k {
                        assert(t0[j] == p);
                    }
                }
                if t0.contains(p) {
                    let j = choose|j: int| 0 <= j < t0.len() && t0[j] == p;
                    assert(t1[j] == p);
                }
                if p == t[k as int] {
                    assert(t1[k as int] == p);
                }
            }
        }
        k += 1;
    }
    push_unique(v, s.binary);
    proof {
        assert(strs(s.nix_packages@).take(s.nix_packages@.len() as int) =~= strs(
            s.nix_packages@,
        ));
    }
}

/// Every package that some known server needs, each once.
pub fn needed_packages() -> (r: Vec<String>)
    ensures
        views(r@).no_duplicates(),
        forall|p: Seq<char>| #[trigger] views(r@).contains(p) <==> needed(p),
{
    let table = servers();
    let mut r: Vec<String> = Vec::new();
    let mut i: usize = 0;
    assert(views(r@) =~= Seq::<Seq<char>>::empty());
    while i < table.len()
        invariant
            i <= table@.len(),
            server_views(table@) == server_table(),
            views(r@).no_duplicates(),
            forall|p: Seq<char>| #[trigger]
                views(r@).contains(p) <==> exists|k: int|
                    0 <= k < i && provides(#[trigger] server_table()[k], p),
        decreases table@.len() - i,
    {
        let s = table[i];
        assert(server_table()[i as int] == s@);
        add_provided(&mut r, s);
        proof {
            assert forall|p: Seq<char>| #[trigger] views(r@).contains(p) <==> exists|k: int|
                0 <= k < i + 1 && provides(#[trigger] server_table()[k], p) by {
                if provides(s@, p) {
                    assert(provides(server_table()[i as int], p));
                }
                if exists|k: int| 0 <= k < i + 1 && provides(#[trigger] server_table()[k], p) {
                    let k = choose|k: int| 0 <= k < i + 1 && provides(#[trigger] server_table()[k], p);
                    if k < i {
                    } else {
                        assert(provides(s@, p));
                    }
                }
            }
        }
        i += 1;
    }
    r
}

/// Every package that a server of one of the extensions `exts` needs (the
/// extensions of the files found in the workspace), each once.
pub fn active_packages(exts: &Vec<String>) -> (r: Vec<String>)
    ensures
        views(r@).no_duplicates(),
        forall|p: Seq<char>| #[trigger] views(r@).contains(p) <==> active(p, views(exts@)),
{
    let table = servers();
    let mut r: Vec<String> = Vec::new();
    assert(views(r@) =~= Seq::<Seq<char>>::empty());
    let mut i: usize = 0;
    while i < table.len()
        invariant
            i <= table@.len(),
            server_views(table@) == server_table(),
            views(r@).no_duplicates(),
            forall|p: Seq<char>| #[trigger]
                views(r@).contains(p) <==> exists|a: int, b: int|
                    0 <= a < i && 0 <= b < views(exts@).len() && #[trigger] server_table()[
                        a
                    ].extensions.contains(#[trigger] views(exts@)[b]) && provides(
                        server_table()[a],
                        p,
                    ),
        decreases table@.len() - i,
    {
        let s = table[i];
        assert(server_table()[i as int] == s@);
        let mut j: usize = 0;
        let mut serves = false;
        while j < exts.len()
            invariant
                j <= exts@.len(),
                serves <==> exists|b: int| 0 <= b < j && s@.extensions.contains(
                    #[trigger] views(exts@)[b],
                ),
            decreases exts@.len() - j,
        {
            let ghost e = views(exts@)[j as int];
            if contains_string_slice(s.extensions, exts[j].as_str()) {
                serves = true;
            }
            j += 1;
        }
        if serves {
            add_provided(&mut r, s);
        }
        proof {
            assert forall|p: Seq<char>| #[trigger] views(r@).contains(p) <==> exists|a: int, b: int|
                0 <= a < i + 1 && 0 <= b < views(exts@).len() && #[trigger] server_table()[
                    a
                ].extensions.contains(#[trigger] views(exts@)[b]) && provides(
                    server_table()[a],
                    p,
                ) by {
                if exists|a: int, b: int|
                    0 <= a < i + 1 && 0 <= b < views(exts@).len() && #[trigger] server_table()[
                        a
                    ].extensions.contains(#[trigger] views(exts@)[b]) && provides(
                        server_table()[a],
                        p,
                    ) {
                    let (a, b) = choose|a: int, b: int|
                        0 <= a < i + 1 && 0 <= b < views(exts@).len() && #[trigger] server_table()[
                            a
                        ].extensions.contains(#[trigger] views(exts@)[b]) && provides(
                            server_table()[a],
                            p,
                        );
                    if a == i {
                        assert(serves);
                    }
                }
                if serves && provides(s@, p) {
                    let b = choose|b: int| 0 <= b < exts@.len() && s@.extensions.contains(
                        #[trigger] views(exts@)[b],
                    );
                    assert(server_table()[i as int].extensions.contains(views(exts@)[b]));
                }
            }
        }
        i += 1;
    }
    r
}

/// Whether `ext` is one of the strings `v`.
fn contains_string_slice(v: &[&str], ext: &str) -> (b: bool)
    ensures
        b == strs(v@).contains(ext@),
{
    let mut i: usize = 0;
    while i < v.len()
        invariant
            i <= v@.len(),
            forall|k: int| 0 <= k < i ==> v@[k]@ != ext@,
        decreases v@.len() - i,
    {
        if str_eq(v[i], ext) {
            assert(strs(v@)[i as int] == ext@);
            return true;
        }
        i += 1;
    }
    proof {
        if strs(v@).contains(ext@) {
            let k = choose|k: int| 0 <= k < strs(v@).len() && strs(v@)[k] == ext@;
            assert(v@[k]@ == ext@);
        }
    }
    false
}

/// What a reconcile does with a package that some server needs.
pub enum ReconcileAction {
    Install,
    Remove,
    Keep,
}

/// A package of a language found in the workspace is installed when it is
/// neither on `PATH` nor installed; a package of no such language is
/// removed when it is installed.
pub open spec fn reconcile_choice(is_active: bool, on_path: bool, installed: bool) -> ReconcileAction {
    if is_active {
        if !on_path && !installed {
            ReconcileAction::Install
        } else {
            ReconcileAction::Keep
        }
    } else if installed {
        ReconcileAction::Remove
    } else {
        ReconcileAction::Keep
    }
}

/// Reconciling settles: once a package is installed because its language
/// is in the workspace, the next reconcile keeps it, and once a package of
/// no such language is removed, the next reconcile leaves it removed, so
/// reconciles never undo each other in a loop.
pub proof fn law_reconcile_settles(is_active: bool, on_path: bool, installed: bool)
    ensures
        reconcile_choice(is_active, on_path, installed) is Install ==> reconcile_choice(
            is_active,
            on_path,
            true,
        ) is Keep,
        reconcile_choice(is_active, on_path, installed) is Remove ==> reconcile_choice(
            is_active,
            on_path,
            false,
        ) is Keep,
        reconcile_choice(is_active, on_path, installed) is Install ==> is_active,
        reconcile_choice(is_active, on_path, installed) is Remove ==> !is_active,
{
}

/// Decides what a reconcile does with one package, and counts it in
/// `(installed, removed)`.
pub fn reconcile_step(counts: (usize, usize), is_active: bool, on_path: bool, installed: bool) -> (r:
    (ReconcileAction, (usize, usize)))
    requires
        counts.0 < usize::MAX,
        counts.1 < usize::MAX,
    ensures
        r.0 == reconcile_choice(is_active, on_path, installed),
        r.1.0 == (if r.0 is Install {
            counts.0 + 1
        } else {
            counts.0 as int
        }),
        r.1.1 == (if r.0 is Remove {
            counts.1 + 1
        } else {
            counts.1 as int
        }),
{
    if is_active {
        if !on_path && !installed {
            (ReconcileAction::Install, (counts.0 + 1, counts.1))
        } else {
            (ReconcileAction::Keep, counts)
        }
    } else if installed {
        (ReconcileAction::Remove, (counts.0, counts.1 + 1))
    } else {
        (ReconcileAction::Keep, counts)
    }
}

} // verus!
