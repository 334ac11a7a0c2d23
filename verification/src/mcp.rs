//! The Model Context Protocol (JSON-RPC 2.0) front end: the tools it
//! offers and how each request is answered.
use vstd::prelude::*;
use crate::json::{
    arr, arr0, arr1, get_str, get_u64, js_array, js_get, js_str, js_u64, jstr, jv, jv_items,
    lemma_jv_items, obj, obj0, obj1, obj2, obj3, obj4, objn, zip_fields, Json, JsonValue,
};
use crate::lsp::server::strs;
use crate::lsp::{lsp_params, params_for};
use crate::text::{concat, str_eq};

verus! {

/// A property of a tool's input: its type and description.
pub open spec fn prop(ty: Seq<char>, desc: Seq<char>) -> Json {
    Json::Object(seq![("type"@, Json::Str(ty)), ("description"@, Json::Str(desc))])
}

/// Strings as JSON strings.
pub open spec fn str_items(v: Seq<Seq<char>>) -> Seq<Json> {
    v.map_values(|s: Seq<char>| Json::Str(s))
}

/// How a tool is described: name, description and input schema.
pub open spec fn tool_json(name: Seq<char>, desc: Seq<char>, props: Json, required: Seq<Seq<char>>) -> Json {
    Json::Object(
        seq![
            ("name"@, Json::Str(name)),
            ("description"@, Json::Str(desc)),
            (
                "inputSchema"@,
                Json::Object(
                    seq![
                        ("type"@, Json::Str("object"@)),
                        ("properties"@, props),
                        ("required"@, Json::Array(str_items(required))),
                    ],
                ),
            ),
        ],
    )
}

/// A tool whose one input is a string field, described as the tool is.
pub open spec fn tool_str_json(name: Seq<char>, desc: Seq<char>, field: Seq<char>) -> Json {
    tool_json(name, desc, Json::Object(seq![(field, prop("string"@, desc))]), seq![field])
}

/// A tool without inputs.
pub open spec fn tool_noprops_json(name: Seq<char>, desc: Seq<char>) -> Json {
    tool_json(name, desc, Json::Object(seq![]), seq![])
}

/// The input properties of the `read` tool.
pub open spec fn read_props() -> Json {
    Json::Object(
        seq![
            ("path"@, prop("string"@, "File path"@)),
            ("offset"@, prop("number"@, "First line, 1-indexed"@)),
            ("limit"@, prop("number"@, "Maximum lines"@)),
        ],
    )
}

/// The input properties of the `bash` tool.
pub open spec fn bash_props() -> Json {
    Json::Object(
        seq![
            ("command"@, prop("string"@, "Shell command to run"@)),
            ("timeout_secs"@, prop("number"@, "Optional timeout in seconds"@)),
        ],
    )
}

/// The input properties of the `edit` tool.
pub open spec fn edit_props() -> Json {
    Json::Object(
        seq![
            ("path"@, prop("string"@, "File path"@)),
            (
                "edits"@,
                Json::Object(
                    seq![
                        ("type"@, Json::Str("array"@)),
                        (
                            "items"@,
                            Json::Object(
                                seq![
                                    ("type"@, Json::Str("object"@)),
                                    (
                                        "properties"@,
                                        Json::Object(
                                            seq![
                                                (
                                                    "old_text"@,
                                                    Json::Object(
                                                        seq![("type"@, Json::Str("string"@))],
                                                    ),
                                                ),
                                                (
                                                    "new_text"@,
                                                    Json::Object(
                                                        seq![("type"@, Json::Str("string"@))],
                                                    ),
                                                ),
                                            ],
                                        ),
                                    ),
                                    (
                                        "required"@,
                                        Json::Array(
                                            seq![
                                                Json::Str("old_text"@),
                                                Json::Str("new_text"@),
                                            ],
                                        ),
                                    ),
                                ],
                            ),
                        ),
                        ("description"@, Json::Str("List of text replacements"@)),
                    ],
                ),
            ),
        ],
    )
}

/// The input properties of the `write` tool.
pub open spec fn write_props() -> Json {
    Json::Object(
        seq![
            ("path"@, prop("string"@, "File path"@)),
            ("content"@, prop("string"@, "File content"@)),
        ],
    )
}

/// The input properties of the `grep` tool.
pub open spec fn grep_props() -> Json {
    Json::Object(
        seq![
            ("pattern"@, prop("string"@, "Search pattern"@)),
            ("path"@, prop("string"@, "Directory to search (default: .)"@)),
        ],
    )
}

/// The input properties of the `find` tool.
pub open spec fn find_props() -> Json {
    Json::Object(
        seq![
            ("path"@, prop("string"@, "Directory to search"@)),
            ("name"@, prop("string"@, "Glob pattern for filename"@)),
        ],
    )
}

/// The input properties of the `lsp` tool.
pub open spec fn lsp_props() -> Json {
    Json::Object(
        seq![
            ("method"@, prop("string"@, "LSP method"@)),
            ("path"@, prop("string"@, "File path used to select the language server"@)),
            ("line"@, prop("number"@, "Start line (0-indexed)"@)),
            ("column"@, prop("number"@, "Start column (0-indexed)"@)),
            ("end_line"@, prop("number"@, "Optional end line for code actions"@)),
            ("end_column"@, prop("number"@, "Optional end column for code actions"@)),
            ("query"@, prop("string"@, "Workspace symbol query"@)),
            ("new_name"@, prop("string"@, "New symbol name for rename preview"@)),
        ],
    )
}

/// The tools offered, in order.
pub open spec fn tool_list() -> Seq<Json> {
    seq![
        tool_json(
            "read"@,
            "Read file contents with optional 1-indexed line range"@,
            read_props(),
            seq!["path"@],
        ),
        tool_json(
            "bash"@,
            "Execute a shell command"@,
            bash_props(),
            seq!["command"@],
        ),
        tool_json(
            "edit"@,
            "Edit a file with text replacements"@,
            edit_props(),
            seq!["path"@, "edits"@],
        ),
        tool_json(
            "write"@,
            "Write content to a file"@,
            write_props(),
            seq!["path"@, "content"@],
        ),
        tool_json(
            "grep"@,
            "Search for a pattern in files"@,
            grep_props(),
            seq!["pattern"@],
        ),
        tool_json(
            "find"@,
            "Find files matching a pattern"@,
            find_props(),
            seq!["path"@],
        ),
        tool_str_json("ls"@, "List directory contents"@, "path"@),
        tool_str_json("spawn"@, "Start a long-running background command"@, "command"@),
        tool_str_json("logs"@, "Read stdout/stderr from a background session"@, "session_id"@),
        tool_str_json("status"@, "Check if a background session is still running"@, "session_id"@),
        tool_str_json("kill"@, "Stop a background session"@, "session_id"@),
        tool_noprops_json("sessions"@, "List all background sessions"@),
        tool_str_json("diagnose"@, "Run LSP diagnostics on a file"@, "path"@),
        tool_json(
            "lsp_request"@,
            "Query code intelligence through LSP: navigation, symbols, rename/code-action previews, completion, signatures, or formatting edits"@,
            lsp_props(),
            seq!["method"@, "path"@],
        ),
        tool_noprops_json("lsp_sessions"@, "List running LSP server sessions"@),
    ]
}

/// A property of a tool's input.
fn prop_json(ty: &str, desc: &str) -> (v: JsonValue)
    ensures
        jv(v) == prop(ty@, desc@),
{
    obj2("type", jstr(ty), "description", jstr(desc))
}

/// Strings as a JSON array.
fn str_array(v: &[&str]) -> (r: JsonValue)
    ensures
        jv(r) == Json::Array(str_items(strs(v@))),
{
    let mut items: Vec<JsonValue> = Vec::new();
    let mut i: usize = 0;
    while i < v.len()
        invariant
            i <= v@.len(),
            items@.len() == i,
            forall|k: int| 0 <= k < i ==> #[trigger] jv(items@[k]) == Json::Str(v@[k]@),
        decreases v@.len() - i,
    {
        items.push(jstr(v[i]));
        i += 1;
    }
    proof {
        lemma_jv_items(items@);
        assert(jv_items(items@) =~= str_items(strs(v@)));
    }
    arr(items)
}

/// How a tool is described.
fn tool(name: &str, desc: &str, props: JsonValue, required: &[&str]) -> (v: JsonValue)
    ensures
        jv(v) == tool_json(name@, desc@, jv(props), strs(required@)),
{
    obj3(
        "name",
        jstr(name),
        "description",
        jstr(desc),
        "inputSchema",
        obj3("type", jstr("object"), "properties", props, "required", str_array(required)),
    )
}

/// A tool without inputs.
fn tool_noprops(name: &str, desc: &str) -> (v: JsonValue)
    ensures
        jv(v) == tool_noprops_json(name@, desc@),
{
    let req: [&str; 0] = [];
    let v = tool(name, desc, obj0(), &req);
    assert(strs(req@) =~= Seq::<Seq<char>>::empty());
    v
}

/// A tool whose one input is a string field.
fn tool_str(name: &str, desc: &str, field: &str) -> (v: JsonValue)
    ensures
        jv(v) == tool_str_json(name@, desc@, field@),
{
    let props = obj1(field, prop_json("string", desc));
    let req = [field];
    let v = tool(name, desc, props, &req);
    assert(strs(req@) =~= seq![field@]);
    v
}

/// The tools offered, in order (the answer to `tools/list`).
pub fn tool_definitions() -> (r: Vec<JsonValue>)
    ensures
        r@.len() == tool_list().len(),
        forall|i: int| 0 <= i < r@.len() ==> #[trigger] jv(r@[i]) == tool_list()[i],
{
    let mut r: Vec<JsonValue> = Vec::new();
    let read_props = obj3(
        "path",
        prop_json("string", "File path"),
        "offset",
        prop_json("number", "First line, 1-indexed"),
        "limit",
        prop_json("number", "Maximum lines"),
    );
    let read_req = ["path"];
    assert(strs(read_req@) =~= seq!["path"@]);
    r.push(tool("read", "Read file contents with optional 1-indexed line range", read_props, &read_req));
    let bash_props = obj2(
        "command",
        prop_json("string", "Shell command to run"),
        "timeout_secs",
        prop_json("number", "Optional timeout in seconds"),
    );
    let bash_req = ["command"];
    assert(strs(bash_req@) =~= seq!["command"@]);
    r.push(tool("bash", "Execute a shell command", bash_props, &bash_req));
    let text_type = obj1("type", jstr("string"));
    let items = obj3(
        "type",
        jstr("object"),
        "properties",
        obj2("old_text", text_type, "new_text", obj1("type", jstr("string"))),
        "required",
        str_array(&["old_text", "new_text"]),
    );
    proof {
        let rq = seq!["old_text", "new_text"];
        assert(str_items(strs(rq)) =~= seq![Json::Str("old_text"@), Json::Str("new_text"@)]);
    }
    let edit_props = obj2(
        "path",
        prop_json("string", "File path"),
        "edits",
        obj3(
            "type",
            jstr("array"),
            "items",
            items,
            "description",
            jstr("List of text replacements"),
        ),
    );
    let edit_req = ["path", "edits"];
    assert(strs(edit_req@) =~= seq!["path"@, "edits"@]);
    r.push(tool("edit", "Edit a file with text replacements", edit_props, &edit_req));
    let write_props = obj2(
        "path",
        prop_json("string", "File path"),
        "content",
        prop_json("string", "File content"),
    );
    let write_req = ["path", "content"];
    assert(strs(write_req@) =~= seq!["path"@, "content"@]);
    r.push(tool("write", "Write content to a file", write_props, &write_req));
    let grep_props = obj2(
        "pattern",
        prop_json("string", "Search pattern"),
        "path",
        prop_json("string", "Directory to search (default: .)"),
    );
    let grep_req = ["pattern"];
    assert(strs(grep_req@) =~= seq!["pattern"@]);
    r.push(tool("grep", "Search for a pattern in files", grep_props, &grep_req));
    let find_props = obj2(
        "path",
        prop_json("string", "Directory to search"),
        "name",
        prop_json("string", "Glob pattern for filename"),
    );
    let find_req = ["path"];
    assert(strs(find_req@) =~= seq!["path"@]);
    r.push(tool("find", "Find files matching a pattern", find_props, &find_req));
    r.push(tool_str("ls", "List directory contents", "path"));
    r.push(tool_str("spawn", "Start a long-running background command", "command"));
    r.push(tool_str("logs", "Read stdout/stderr from a background session", "session_id"));
    r.push(tool_str("status", "Check if a background session is still running", "session_id"));
    r.push(tool_str("kill", "Stop a background session", "session_id"));
    r.push(tool_noprops("sessions", "List all background sessions"));
    r.push(tool_str("diagnose", "Run LSP diagnostics on a file", "path"));
    let lsp_keys = [
        "method",
        "path",
        "line",
        "column",
        "end_line",
        "end_column",
        "query",
        "new_name",
    ];
    let lsp_vals = vec![
        prop_json("string", "LSP method"),
        prop_json("string", "File path used to select the language server"),
        prop_json("number", "Start line (0-indexed)"),
        prop_json("number", "Start column (0-indexed)"),
        prop_json("number", "Optional end line for code actions"),
        prop_json("number", "Optional end column for code actions"),
        prop_json("string", "Workspace symbol query"),
        prop_json("string", "New symbol name for rename preview"),
    ];
    let lsp_props = objn(&lsp_keys, lsp_vals);
    let lsp_req = ["method", "path"];
    assert(strs(lsp_req@) =~= seq!["method"@, "path"@]);
    r.push(
        tool(
            "lsp_request",
            "Query code intelligence through LSP: navigation, symbols, rename/code-action previews, completion, signatures, or formatting edits",
            lsp_props,
            &lsp_req,
        ),
    );
    r.push(tool_noprops("lsp_sessions", "List running LSP server sessions"));
    proof {
        assert(zip_fields(lsp_keys@, lsp_vals@) =~= seq![
            ("method"@, prop("string"@, "LSP method"@)),
            ("path"@, prop("string"@, "File path used to select the language server"@)),
            ("line"@, prop("number"@, "Start line (0-indexed)"@)),
            ("column"@, prop("number"@, "Start column (0-indexed)"@)),
            ("end_line"@, prop("number"@, "Optional end line for code actions"@)),
            ("end_column"@, prop("number"@, "Optional end column for code actions"@)),
            ("query"@, prop("string"@, "Workspace symbol query"@)),
            ("new_name"@, prop("string"@, "New symbol name for rename preview"@)),
        ]);
        assert forall|i: int| 0 <= i < r@.len() implies #[trigger] jv(r@[i]) == tool_list()[i] by {
        }
    }
    r
}

/// What the server does with one request.
pub enum McpStep {
    /// Answer with this response.
    Reply(JsonValue),
    /// Answer nothing (a notification).
    NoReply,
    /// Run tool `name` with `args`, then answer request `id` with
    /// `tool_response`.
    CallTool { id: JsonValue, name: String, args: JsonValue },
}

/// A step as plain values.
pub enum McpOutcome {
    Reply(Json),
    NoReply,
    CallTool(Json, Seq<char>, Json),
}

/// The view of a step.
pub open spec fn outcome_of(s: McpStep) -> McpOutcome {
    match s {
        McpStep::Reply(v) => McpOutcome::Reply(jv(v)),
        McpStep::NoReply => McpOutcome::NoReply,
        McpStep::CallTool { id, name, args } => McpOutcome::CallTool(jv(id), name@, jv(args)),
    }
}

/// The id a response carries: the request's, or null.
pub open spec fn id_of(req: Json) -> Json {
    match js_get(req, "id"@) {
        Some(x) => x,
        None => Json::Null,
    }
}

/// A response with `result`.
pub open spec fn result_json(id: Json, result: Json) -> Json {
    Json::Object(seq![("jsonrpc"@, Json::Str("2.0"@)), ("id"@, id), ("result"@, result)])
}

/// A response with an error.
pub open spec fn error_json(id: Json, code: int, message: Seq<char>) -> Json {
    Json::Object(
        seq![
            ("jsonrpc"@, Json::Str("2.0"@)),
            ("id"@, id),
            (
                "error"@,
                Json::Object(seq![("code"@, crate::json::int_json(code)), ("message"@, Json::Str(message))]),
            ),
        ],
    )
}

/// What the server does with a request: a notification (a request with no
/// `id`) gets no answer; otherwise it answers `initialize` and
/// `tools/list`, says nothing to `notifications/initialized`, runs a tool
/// for `tools/call`, and answers any other method with an error.
pub open spec fn mcp_step(req: Json) -> McpOutcome {
    if js_get(req, "id"@) is None {
        McpOutcome::NoReply
    } else {
        mcp_answer(req)
    }
}

/// How the server answers a request that has an `id`.
pub open spec fn mcp_answer(req: Json) -> McpOutcome {
    let id = id_of(req);
    let method = match js_str(js_get(req, "method"@)) {
        Some(m) => m,
        None => seq![],
    };
    if method == "initialize"@ {
        McpOutcome::Reply(
            result_json(
                id,
                Json::Object(
                    seq![
                        ("protocolVersion"@, Json::Str("2024-11-05"@)),
                        ("capabilities"@, Json::Object(seq![("tools"@, Json::Object(seq![]))])),
                        (
                            "serverInfo"@,
                            Json::Object(
                                seq![("name"@, Json::Str("ws"@)), ("version"@, Json::Str("0.1.0"@))],
                            ),
                        ),
                    ],
                ),
            ),
        )
    } else if method == "notifications/initialized"@ {
        McpOutcome::NoReply
    } else if method == "tools/list"@ {
        McpOutcome::Reply(result_json(id, Json::Object(seq![("tools"@, Json::Array(tool_list()))])))
    } else if method == "tools/call"@ {
        let params = js_get(req, "params"@);
        let name = match params {
            Some(p) => match js_str(js_get(p, "name"@)) {
                Some(n) => n,
                None => seq![],
            },
            None => seq![],
        };
        let args = match params {
            Some(p) => match js_get(p, "arguments"@) {
                Some(a) => a,
                None => Json::Object(seq![]),
            },
            None => Json::Object(seq![]),
        };
        McpOutcome::CallTool(id, name, args)
    } else {
        McpOutcome::Reply(error_json(id, -32601, "Method not found: "@ + method))
    }
}

/// The id of a request, for its response.
fn request_id(req: &JsonValue) -> (v: JsonValue)
    ensures
        jv(v) == id_of(jv(*req)),
{
    match req.get("id") {
        Some(x) => x.deep_copy(),
        None => JsonValue::Null,
    }
}

/// A response with `result`.
fn result_response(id: JsonValue, result: JsonValue) -> (v: JsonValue)
    ensures
        jv(v) == result_json(jv(id), jv(result)),
{
    obj3("jsonrpc", jstr("2.0"), "id", id, "result", result)
}

/// A response with an error.
fn error_response(id: JsonValue, code: i64, message: &str) -> (v: JsonValue)
    ensures
        jv(v) == error_json(jv(id), code as int, message@),
{
    obj3(
        "jsonrpc",
        jstr("2.0"),
        "id",
        id,
        "error",
        obj2("code", crate::json::jint(code), "message", jstr(message)),
    )
}

/// Decides what to do with one MCP request.
pub fn handle_request(req: &JsonValue) -> (r: McpStep)
    ensures
        outcome_of(r) == mcp_step(jv(*req)),
{
    if req.get("id").is_none() {
        return McpStep::NoReply;
    }
    let id = request_id(req);
    let method = match get_str(req, "method") {
        Some(m) => m,
        None => "",
    };
    proof {
        reveal_strlit("");
        assert(""@ =~= Seq::<char>::empty());
    }
    if str_eq(method, "initialize") {
        let result = obj3(
            "protocolVersion",
            jstr("2024-11-05"),
            "capabilities",
            obj1("tools", obj0()),
            "serverInfo",
            obj2("name", jstr("ws"), "version", jstr("0.1.0")),
        );
        McpStep::Reply(result_response(id, result))
    } else if str_eq(method, "notifications/initialized") {
        McpStep::NoReply
    } else if str_eq(method, "tools/list") {
        let tools = tool_definitions();
        proof {
            lemma_jv_items(tools@);
            assert(jv_items(tools@) =~= tool_list());
        }
        McpStep::Reply(result_response(id, obj1("tools", arr(tools))))
    } else if str_eq(method, "tools/call") {
        let params = req.get("params");
        let name = match params {
            Some(p) => match get_str(p, "name") {
                Some(n) => n.to_owned(),
                None => String::new(),
            },
            None => String::new(),
        };
        let args = match params {
            Some(p) => match p.get("arguments") {
                Some(a) => a.deep_copy(),
                None => obj0(),
            },
            None => obj0(),
        };
        McpStep::CallTool { id, name, args }
    } else {
        McpStep::Reply(error_response(id, -32601, concat("Method not found: ", method).as_str()))
    }
}

/// The answer to a tool call: the tool's result as text (its JSON), or
/// its error, marked as one.
pub open spec fn tool_response_json(id: Json, outcome: Result<Seq<char>, Seq<char>>) -> Json {
    match outcome {
        Ok(text) => result_json(
            id,
            Json::Object(
                seq![
                    (
                        "content"@,
                        Json::Array(
                            seq![
                                Json::Object(
                                    seq![("type"@, Json::Str("text"@)), ("text"@, Json::Str(text))],
                                ),
                            ],
                        ),
                    ),
                ],
            ),
        ),
        Err(e) => result_json(
            id,
            Json::Object(
                seq![
                    (
                        "content"@,
                        Json::Array(
                            seq![
                                Json::Object(
                                    seq![
                                        ("type"@, Json::Str("text"@)),
                                        ("text"@, Json::Str("Error: "@ + e)),
                                    ],
                                ),
                            ],
                        ),
                    ),
                    ("isError"@, Json::Bool(true)),
                ],
            ),
        ),
    }
}

/// The answer to a tool call.
pub fn tool_response(id: JsonValue, outcome: Result<String, String>) -> (v: JsonValue)
    ensures
        jv(v) == tool_response_json(
            jv(id),
            match outcome {
                Ok(t) => Ok(t@),
                Err(e) => Err(e@),
            },
        ),
{
    match outcome {
        Ok(text) => {
            let item = obj2("type", jstr("text"), "text", jstr(text.as_str()));
            result_response(id, obj1("content", arr1(item)))
        },
        Err(e) => {
            let msg = concat("Error: ", e.as_str());
            let item = obj2("type", jstr("text"), "text", jstr(msg.as_str()));
            result_response(id, obj2("content", arr1(item), "isError", JsonValue::Bool(true)))
        },
    }
}

/// The answer to a line that is not JSON.
pub fn parse_error_response(message: &str) -> (v: JsonValue)
    ensures
        jv(v) == error_json(Json::Null, -32700, "Parse error: "@ + message@),
{
    error_response(JsonValue::Null, -32700, concat("Parse error: ", message).as_str())
}

/// A tool call, its arguments read.
#[allow(inconsistent_fields)]
pub enum ToolCall {
    Read { path: String, offset: Option<usize>, limit: Option<usize> },
    Bash { command: String, timeout_secs: Option<u64> },
    Edit { path: String, edits: JsonValue },
    Write { path: String, content: String },
    Grep { pattern: String, path: Option<String> },
    Find { path: String, name: Option<String> },
    Ls { path: String },
    Spawn { command: String },
    Logs { session_id: String },
    Status { session_id: String },
    Kill { session_id: String },
    Sessions,
    Diagnose { path: String },
    LspRequest { method: String, path: String, params: JsonValue },
    LspSessions,
}

/// A tool call as plain values.
pub enum CallView {
    Read(Seq<char>, Option<usize>, Option<usize>),
    Bash(Seq<char>, Option<u64>),
    Edit(Seq<char>, Json),
    Write(Seq<char>, Seq<char>),
    Grep(Seq<char>, Option<Seq<char>>),
    Find(Seq<char>, Option<Seq<char>>),
    Ls(Seq<char>),
    Spawn(Seq<char>),
    Logs(Seq<char>),
    Status(Seq<char>),
    Kill(Seq<char>),
    Sessions,
    Diagnose(Seq<char>),
    LspRequest(Seq<char>, Seq<char>, Json),
    LspSessions,
}

/// The view of an optional string.
pub open spec fn opt_str(s: Option<String>) -> Option<Seq<char>> {
    match s {
        Some(x) => Some(x@),
        None => None,
    }
}

/// The view of a tool call.
pub open spec fn call_view(c: ToolCall) -> CallView {
    match c {
        ToolCall::Read { path, offset, limit } => CallView::Read(path@, offset, limit),
        ToolCall::Bash { command, timeout_secs } => CallView::Bash(command@, timeout_secs),
        ToolCall::Edit { path, edits } => CallView::Edit(path@, jv(edits)),
        ToolCall::Write { path, content } => CallView::Write(path@, content@),
        ToolCall::Grep { pattern, path } => CallView::Grep(pattern@, opt_str(path)),
        ToolCall::Find { path, name } => CallView::Find(path@, opt_str(name)),
        ToolCall::Ls { path } => CallView::Ls(path@),
        ToolCall::Spawn { command } => CallView::Spawn(command@),
        ToolCall::Logs { session_id } => CallView::Logs(session_id@),
        ToolCall::Status { session_id } => CallView::Status(session_id@),
        ToolCall::Kill { session_id } => CallView::Kill(session_id@),
        ToolCall::Sessions => CallView::Sessions,
        ToolCall::Diagnose { path } => CallView::Diagnose(path@),
        ToolCall::LspRequest { method, path, params } => CallView::LspRequest(
            method@,
            path@,
            jv(params),
        ),
        ToolCall::LspSessions => CallView::LspSessions,
    }
}

/// A required string argument, or the error naming it.
pub open spec fn arg(args: Json, key: Seq<char>) -> Result<Seq<char>, Seq<char>> {
    match js_str(js_get(args, key)) {
        Some(s) => Ok(s),
        None => Err("missing field: "@ + key),
    }
}

/// An optional number argument, as a `usize`.
pub open spec fn opt_usize(args: Json, key: Seq<char>) -> Option<usize> {
    match js_u64(js_get(args, key)) {
        Some(n) => Some(n as usize),
        None => None,
    }
}

/// The tool call that `name` and `args` ask for, or why it is refused:
/// a missing required argument, or an unknown tool.
pub open spec fn call_for(name: Seq<char>, args: Json, cwd: Seq<char>) -> Result<CallView, Seq<char>> {
    if name == "read"@ {
        match arg(args, "path"@) {
            Err(e) => Err(e),
            Ok(p) => Ok(CallView::Read(p, opt_usize(args, "offset"@), opt_usize(args, "limit"@))),
        }
    } else if name == "bash"@ {
        match arg(args, "command"@) {
            Err(e) => Err(e),
            Ok(c) => Ok(CallView::Bash(c, js_u64(js_get(args, "timeout_secs"@)))),
        }
    } else if name == "edit"@ {
        match arg(args, "path"@) {
            Err(e) => Err(e),
            Ok(p) => match js_get(args, "edits"@) {
                None => Err("missing field: edits"@),
                Some(e) => Ok(CallView::Edit(p, e)),
            },
        }
    } else if name == "write"@ {
        match arg(args, "path"@) {
            Err(e) => Err(e),
            Ok(p) => match arg(args, "content"@) {
                Err(e) => Err(e),
                Ok(c) => Ok(CallView::Write(p, c)),
            },
        }
    } else if name == "grep"@ {
        match arg(args, "pattern"@) {
            Err(e) => Err(e),
            Ok(p) => Ok(CallView::Grep(p, js_str(js_get(args, "path"@)))),
        }
    } else if name == "find"@ {
        match arg(args, "path"@) {
            Err(e) => Err(e),
            Ok(p) => Ok(CallView::Find(p, js_str(js_get(args, "name"@)))),
        }
    } else if name == "ls"@ {
        match arg(args, "path"@) {
            Err(e) => Err(e),
            Ok(p) => Ok(CallView::Ls(p)),
        }
    } else if name == "spawn"@ {
        match arg(args, "command"@) {
            Err(e) => Err(e),
            Ok(c) => Ok(CallView::Spawn(c)),
        }
    } else if name == "logs"@ {
        match arg(args, "session_id"@) {
            Err(e) => Err(e),
            Ok(i) => Ok(CallView::Logs(i)),
        }
    } else if name == "status"@ {
        match arg(args, "session_id"@) {
            Err(e) => Err(e),
            Ok(i) => Ok(CallView::Status(i)),
        }
    } else if name == "kill"@ {
        match arg(args, "session_id"@) {
            Err(e) => Err(e),
            Ok(i) => Ok(CallView::Kill(i)),
        }
    } else if name == "sessions"@ {
        Ok(CallView::Sessions)
    } else if name == "diagnose"@ {
        match arg(args, "path"@) {
            Err(e) => Err(e),
            Ok(p) => Ok(CallView::Diagnose(p)),
        }
    } else if name == "lsp_request"@ {
        match arg(args, "method"@) {
            Err(e) => Err(e),
            Ok(m) => match arg(args, "path"@) {
                Err(e) => Err(e),
                Ok(p) => match params_for(p, m, args, cwd) {
                    Err(e) => Err(e),
                    Ok(params) => Ok(CallView::LspRequest(m, p, params)),
                },
            },
        }
    } else if name == "lsp_sessions"@ {
        Ok(CallView::LspSessions)
    } else {
        Err("Unknown tool: "@ + name)
    }
}

/// A required string argument.
pub(crate) fn required(args: &JsonValue, key: &str) -> (r: Result<String, String>)
    ensures
        match r {
            Ok(s) => arg(jv(*args), key@) == Ok::<Seq<char>, Seq<char>>(s@),
            Err(e) => arg(jv(*args), key@) == Err::<Seq<char>, Seq<char>>(e@),
        },
{
    match get_str(args, key) {
        Some(s) => Ok(s.to_owned()),
        None => Err(concat("missing field: ", key)),
    }
}

/// An optional number argument, as a `usize`.
pub(crate) fn optional_usize(args: &JsonValue, key: &str) -> (r: Option<usize>)
    ensures
        r == opt_usize(jv(*args), key@),
{
    match get_u64(args, key) {
        Some(n) => Some(n as usize),
        None => None,
    }
}

/// An optional string argument.
pub(crate) fn optional_str(args: &JsonValue, key: &str) -> (r: Option<String>)
    ensures
        opt_str(r) == js_str(js_get(jv(*args), key@)),
{
    match get_str(args, key) {
        Some(s) => Some(s.to_owned()),
        None => None,
    }
}

/// Reads the arguments of a tool call (the decision half of running a
/// tool); `cwd` is the working directory for relative paths.
pub fn dispatch_tool(name: &str, args: &JsonValue, cwd: &str) -> (r: Result<ToolCall, String>)
    ensures
        match r {
            Ok(c) => call_for(name@, jv(*args), cwd@) == Ok::<CallView, Seq<char>>(call_view(c)),
            Err(e) => call_for(name@, jv(*args), cwd@) == Err::<CallView, Seq<char>>(e@),
        },
{
    if str_eq(name, "read") {
        let path = match required(args, "path") {
            Ok(p) => p,
            Err(e) => {
                return Err(e);
            },
        };
        Ok(
            ToolCall::Read {
                path,
                offset: optional_usize(args, "offset"),
                limit: optional_usize(args, "limit"),
            },
        )
    } else if str_eq(name, "bash") {
        let command = match required(args, "command") {
            Ok(c) => c,
            Err(e) => {
                return Err(e);
            },
        };
        Ok(ToolCall::Bash { command, timeout_secs: get_u64(args, "timeout_secs") })
    } else if str_eq(name, "edit") {
        let path = match required(args, "path") {
            Ok(p) => p,
            Err(e) => {
                return Err(e);
            },
        };
        match args.get("edits") {
            None => Err("missing field: edits".to_owned()),
            Some(e) => Ok(ToolCall::Edit { path, edits: e.deep_copy() }),
        }
    } else if str_eq(name, "write") {
        let path = match required(args, "path") {
            Ok(p) => p,
            Err(e) => {
                return Err(e);
            },
        };
        let content = match required(args, "content") {
            Ok(c) => c,
            Err(e) => {
                return Err(e);
            },
        };
        Ok(ToolCall::Write { path, content })
    } else if str_eq(name, "grep") {
        let pattern = match required(args, "pattern") {
            Ok(p) => p,
            Err(e) => {
                return Err(e);
            },
        };
        Ok(ToolCall::Grep { pattern, path: optional_str(args, "path") })
    } else if str_eq(name, "find") {
        let path = match required(args, "path") {
            Ok(p) => p,
            Err(e) => {
                return Err(e);
            },
        };
        Ok(ToolCall::Find { path, name: optional_str(args, "name") })
    } else if str_eq(name, "ls") {
        match required(args, "path") {
            Ok(path) => Ok(ToolCall::Ls { path }),
            Err(e) => Err(e),
        }
    } else if str_eq(name, "spawn") {
        match required(args, "command") {
            Ok(command) => Ok(ToolCall::Spawn { command }),
            Err(e) => Err(e),
        }
    } else if str_eq(name, "logs") {
        match required(args, "session_id") {
            Ok(session_id) => Ok(ToolCall::Logs { session_id }),
            Err(e) => Err(e),
        }
    } else if str_eq(name, "status") {
        match required(args, "session_id") {
            Ok(session_id) => Ok(ToolCall::Status { session_id }),
            Err(e) => Err(e),
        }
    } else if str_eq(name, "kill") {
        match required(args, "session_id") {
            Ok(session_id) => Ok(ToolCall::Kill { session_id }),
            Err(e) => Err(e),
        }
    } else if str_eq(name, "sessions") {
        Ok(ToolCall::Sessions)
    } else if str_eq(name, "diagnose") {
        match required(args, "path") {
            Ok(path) => Ok(ToolCall::Diagnose { path }),
            Err(e) => Err(e),
        }
    } else if str_eq(name, "lsp_request") {
        let method = match required(args, "method") {
            Ok(m) => m,
            Err(e) => {
                return Err(e);
            },
        };
        let path = match required(args, "path") {
            Ok(p) => p,
            Err(e) => {
                return Err(e);
            },
        };
        match lsp_params(path.as_str(), method.as_str(), args, cwd) {
            Ok(params) => Ok(ToolCall::LspRequest { method, path, params }),
            Err(e) => Err(e),
        }
    } else if str_eq(name, "lsp_sessions") {
        Ok(ToolCall::LspSessions)
    } else {
        Err(concat("Unknown tool: ", name))
    }
}


/// The names of the tools offered, in order.
pub open spec fn listed_names() -> Seq<Seq<char>> {
    seq![
        "read"@,
        "bash"@,
        "edit"@,
        "write"@,
        "grep"@,
        "find"@,
        "ls"@,
        "spawn"@,
        "logs"@,
        "status"@,
        "kill"@,
        "sessions"@,
        "diagnose"@,
        "lsp_request"@,
        "lsp_sessions"@,
    ]
}

/// The name a tool description gives.
pub open spec fn tool_name(t: Json) -> Seq<char> {
    match js_str(js_get(t, "name"@)) {
        Some(n) => n,
        None => seq![],
    }
}

/// The error of an unknown tool.
pub open spec fn unknown_tool(name: Seq<char>) -> Seq<char> {
    "Unknown tool: "@ + name
}

/// Every tool offered can be called: the list names fifteen tools, no two
/// alike, and a call of any of them is never refused as unknown, whatever
/// its arguments.
pub proof fn law_listed_tools_dispatch(args: Json, cwd: Seq<char>)
    ensures
        tool_list().len() == 15,
        forall|i: int| 0 <= i < 15 ==> tool_name(#[trigger] tool_list()[i]) == listed_names()[i],
        listed_names().no_duplicates(),
        forall|i: int|
            0 <= i < 15 ==> call_for(#[trigger] listed_names()[i], args, cwd) != Err::<CallView, Seq<char>>(
                unknown_tool(listed_names()[i]),
            ),
{
    reveal_strlit("read");
    reveal_strlit("bash");
    reveal_strlit("edit");
    reveal_strlit("write");
    reveal_strlit("grep");
    reveal_strlit("find");
    reveal_strlit("ls");
    reveal_strlit("spawn");
    reveal_strlit("logs");
    reveal_strlit("status");
    reveal_strlit("kill");
    reveal_strlit("sessions");
    reveal_strlit("diagnose");
    reveal_strlit("lsp_request");
    reveal_strlit("lsp_sessions");
    reveal_strlit("Unknown tool: ");
    reveal_strlit("missing field: ");
    reveal_strlit("missing field: edits");
    reveal_strlit("missing field: query");
    reveal_strlit("missing field: new_name");
    reveal_strlit("missing field: line");
    reveal_strlit("missing field: column");
    reveal_strlit("unsupported LSP method: ");
    assert forall|i: int, j: int| 0 <= i < 15 && 0 <= j < 15 && i != j implies #[trigger] listed_names()[i]
        != #[trigger] listed_names()[j] by {
        let a = listed_names()[i];
        let b = listed_names()[j];
        assert(a.len() != b.len() || a[0] != b[0] || a[1] != b[1] || a[4] != b[4]);
    }
    assert forall|i: int| 0 <= i < 15 implies call_for(#[trigger] listed_names()[i], args, cwd) != Err::<
        CallView,
        Seq<char>,
    >(unknown_tool(listed_names()[i])) by {
        let n = listed_names()[i];
        match call_for(n, args, cwd) {
            Ok(_) => {},
            Err(e) => {
                assert(unknown_tool(n)[0] == 'U');
                assert(e[0] != 'U');
            },
        }
    }
}


/// A tool's input schema is an object schema whose required keys are all
/// among its properties.
pub open spec fn schema_sound(t: Json) -> bool {
    match js_get(t, "inputSchema"@) {
        Some(schema) => {
            &&& js_str(js_get(schema, "type"@)) == Some("object"@)
            &&& match (js_get(schema, "properties"@), js_array(js_get(schema, "required"@))) {
                (Some(props), Some(req)) => forall|k: int|
                    0 <= k < req.len() ==> (#[trigger] req[k] matches Json::Str(r) && js_get(props, r) is Some),
                _ => false,
            }
        },
        None => false,
    }
}

/// A description made by `tool_json` is sound when its required keys are
/// among its properties.
proof fn lemma_tool_json_sound(props: Json, required: Seq<Seq<char>>)
    requires
        forall|k: int| 0 <= k < required.len() ==> js_get(props, #[trigger] required[k]) is Some,
    ensures
        forall|name: Seq<char>, desc: Seq<char>| #[trigger] schema_sound(tool_json(name, desc, props, required)),
{
    reveal_strlit("name");
    reveal_strlit("description");
    reveal_strlit("inputSchema");
    reveal_strlit("type");
    reveal_strlit("properties");
    reveal_strlit("required");
    reveal_with_fuel(crate::json::field_index, 4);
    assert("name"@ != "inputSchema"@ && "description"@ != "inputSchema"@) by {
        assert("name"@.len() != "inputSchema"@.len());
        assert("description"@[0] != "inputSchema"@[0]);
    }
    assert("type"@ != "properties"@ && "type"@ != "required"@ && "properties"@ != "required"@) by {
        assert("type"@.len() != "properties"@.len());
        assert("type"@.len() != "required"@.len());
        assert("properties"@[0] != "required"@[0]);
    }
    assert forall|name: Seq<char>, desc: Seq<char>| #[trigger] schema_sound(tool_json(name, desc, props, required)) by {
        let t = tool_json(name, desc, props, required);
        let schema = js_get(t, "inputSchema"@).unwrap();
        let req = js_array(js_get(schema, "required"@)).unwrap();
        assert(req == str_items(required));
        assert forall|k: int| 0 <= k < req.len() implies (#[trigger] req[k] matches Json::Str(r) && js_get(
            props,
            r,
        ) is Some) by {
            assert(req[k] == Json::Str(required[k]));
        }
    }
}

/// Every tool's input schema is an object schema whose required keys are
/// all among its properties, so a call that gives the required arguments
/// names only properties the tool describes.
pub proof fn law_tool_schemas_sound()
    ensures
        forall|i: int| 0 <= i < tool_list().len() ==> schema_sound(#[trigger] tool_list()[i]),
{
    reveal_strlit("path");
    reveal_strlit("edits");
    reveal_strlit("content");
    reveal_strlit("method");
    reveal_with_fuel(crate::json::field_index, 3);
    assert("path"@ != "edits"@ && "path"@ != "content"@ && "method"@ != "path"@) by {
        assert("path"@.len() != "edits"@.len());
        assert("path"@.len() != "content"@.len());
        assert("method"@.len() != "path"@.len());
    }
    lemma_tool_json_sound(read_props(), seq!["path"@]);
    lemma_tool_json_sound(bash_props(), seq!["command"@]);
    lemma_tool_json_sound(edit_props(), seq!["path"@, "edits"@]);
    lemma_tool_json_sound(write_props(), seq!["path"@, "content"@]);
    lemma_tool_json_sound(grep_props(), seq!["pattern"@]);
    lemma_tool_json_sound(find_props(), seq!["path"@]);
    lemma_tool_json_sound(lsp_props(), seq!["method"@, "path"@]);
    assert forall|n: Seq<char>, d: Seq<char>, f: Seq<char>| #[trigger] schema_sound(tool_str_json(n, d, f)) by {
        lemma_tool_json_sound(Json::Object(seq![(f, prop("string"@, d))]), seq![f]);
    }
    assert forall|n: Seq<char>, d: Seq<char>| #[trigger] schema_sound(tool_noprops_json(n, d)) by {
        lemma_tool_json_sound(Json::Object(seq![]), seq![]);
    }
    assert forall|i: int| 0 <= i < tool_list().len() implies schema_sound(#[trigger] tool_list()[i]) by {
        assert(i == 0 || i == 1 || i == 2 || i == 3 || i == 4 || i == 5 || i == 6 || i == 7 || i == 8
            || i == 9 || i == 10 || i == 11 || i == 12 || i == 13 || i == 14);
    }
}

} // verus!
