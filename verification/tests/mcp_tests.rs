use ws::json::JsonValue;
use ws::mcp::{dispatch_tool, handle_request, parse_error_response, tool_definitions, tool_response, McpStep, ToolCall};

fn s(v: &str) -> JsonValue {
    JsonValue::Str(v.to_string())
}

fn o(fields: Vec<(&str, JsonValue)>) -> JsonValue {
    JsonValue::Object(fields.into_iter().map(|(k, v)| (k.to_string(), v)).collect())
}

fn at<'a>(v: &'a JsonValue, path: &[&str]) -> &'a JsonValue {
    let mut cur = v;
    for k in path {
        cur = cur.get(k).expect("member");
    }
    cur
}

fn reply(step: McpStep) -> JsonValue {
    match step {
        McpStep::Reply(v) => v,
        _ => panic!("expected a reply"),
    }
}

#[test]
fn initialize_is_answered_with_server_info() {
    let r = reply(handle_request(&o(vec![("id", JsonValue::UInt(1)), ("method", s("initialize"))])));
    assert_eq!(at(&r, &["jsonrpc"]).as_str(), Some("2.0"));
    assert_eq!(at(&r, &["id"]).as_u64(), Some(1));
    assert_eq!(at(&r, &["result", "protocolVersion"]).as_str(), Some("2024-11-05"));
    assert_eq!(at(&r, &["result", "serverInfo", "name"]).as_str(), Some("ws"));
}

#[test]
fn notifications_get_no_answer() {
    assert!(matches!(
        handle_request(&o(vec![("method", s("notifications/initialized"))])),
        McpStep::NoReply
    ));
}

#[test]
fn tools_are_listed() {
    let r = reply(handle_request(&o(vec![("id", JsonValue::UInt(2)), ("method", s("tools/list"))])));
    let tools = at(&r, &["result", "tools"]).as_array().unwrap();
    assert_eq!(tools.len(), tool_definitions().len());
    let names: Vec<&str> = tools.iter().map(|t| at(t, &["name"]).as_str().unwrap()).collect();
    assert!(names.contains(&"read"));
    assert!(names.contains(&"lsp_request"));
}

#[test]
fn unknown_methods_are_errors() {
    let r = reply(handle_request(&o(vec![("id", s("x")), ("method", s("bogus"))])));
    assert_eq!(at(&r, &["error", "message"]).as_str(), Some("Method not found: bogus"));
    assert!(matches!(at(&r, &["error", "code"]), JsonValue::NegInt(-32601)));
    assert_eq!(at(&r, &["id"]).as_str(), Some("x"));
    let r = reply(handle_request(&o(vec![("id", JsonValue::Null)])));
    assert!(matches!(at(&r, &["id"]), JsonValue::Null));
    assert_eq!(at(&r, &["error", "message"]).as_str(), Some("Method not found: "));
}

#[test]
fn requests_without_id_are_notifications() {
    let list = o(vec![("jsonrpc", s("2.0")), ("method", s("tools/list"))]);
    assert!(matches!(handle_request(&list), McpStep::NoReply));
    assert!(matches!(handle_request(&o(vec![("method", s("bogus"))])), McpStep::NoReply));
    assert!(matches!(handle_request(&o(vec![])), McpStep::NoReply));
    assert!(matches!(handle_request(&o(vec![("method", s("tools/call"))])), McpStep::NoReply));
}

#[test]
fn tool_calls_carry_name_and_arguments() {
    let req = o(vec![
        ("id", JsonValue::UInt(5)),
        ("method", s("tools/call")),
        ("params", o(vec![("name", s("read")), ("arguments", o(vec![("path", s("/a"))]))])),
    ]);
    match handle_request(&req) {
        McpStep::CallTool { id, name, args } => {
            assert_eq!(id.as_u64(), Some(5));
            assert_eq!(name, "read");
            assert_eq!(at(&args, &["path"]).as_str(), Some("/a"));
        }
        _ => panic!("expected a tool call"),
    }
    match handle_request(&o(vec![("id", JsonValue::UInt(6)), ("method", s("tools/call"))])) {
        McpStep::CallTool { name, args, .. } => {
            assert_eq!(name, "");
            assert_eq!(args.as_object().unwrap().len(), 0);
        }
        _ => panic!("expected a tool call"),
    }
}

#[test]
fn tool_answers() {
    let ok = tool_response(JsonValue::UInt(3), Ok("{\"x\":1}".to_string()));
    let item = &at(&ok, &["result", "content"]).as_array().unwrap()[0];
    assert_eq!(at(item, &["type"]).as_str(), Some("text"));
    assert_eq!(at(item, &["text"]).as_str(), Some("{\"x\":1}"));
    assert!(ok.get("result").unwrap().get("isError").is_none());
    let err = tool_response(JsonValue::UInt(3), Err("bad".to_string()));
    let item = &at(&err, &["result", "content"]).as_array().unwrap()[0];
    assert_eq!(at(item, &["text"]).as_str(), Some("Error: bad"));
    assert_eq!(at(&err, &["result", "isError"]).as_bool(), Some(true));
    let parse = parse_error_response("eof");
    assert_eq!(at(&parse, &["error", "message"]).as_str(), Some("Parse error: eof"));
    assert!(matches!(at(&parse, &["error", "code"]), JsonValue::NegInt(-32700)));
}

#[test]
fn tool_arguments_are_read_or_refused() {
    match dispatch_tool("read", &o(vec![("path", s("a.txt")), ("offset", JsonValue::UInt(3))]), "/w").unwrap() {
        ToolCall::Read { path, offset, limit } => {
            assert_eq!(path, "a.txt");
            assert_eq!((offset, limit), (Some(3), None));
        }
        _ => panic!("expected read"),
    }
    assert_eq!(dispatch_tool("read", &o(vec![]), "/w").err(), Some("missing field: path".to_string()));
    assert_eq!(
        dispatch_tool("write", &o(vec![("path", s("a"))]), "/w").err(),
        Some("missing field: content".to_string())
    );
    assert_eq!(
        dispatch_tool("edit", &o(vec![("path", s("a"))]), "/w").err(),
        Some("missing field: edits".to_string())
    );
    assert_eq!(dispatch_tool("nope", &o(vec![]), "/w").err(), Some("Unknown tool: nope".to_string()));
    assert!(matches!(dispatch_tool("sessions", &o(vec![]), "/w"), Ok(ToolCall::Sessions)));
    match dispatch_tool("grep", &o(vec![("pattern", s("x"))]), "/w").unwrap() {
        ToolCall::Grep { pattern, path } => assert_eq!((pattern.as_str(), path), ("x", None)),
        _ => panic!("expected grep"),
    }
    match dispatch_tool(
        "lsp_request",
        &o(vec![("method", s("textDocument/hover")), ("path", s("m.go")), ("line", JsonValue::UInt(1)), ("column", JsonValue::UInt(2))]),
        "/w",
    )
    .unwrap()
    {
        ToolCall::LspRequest { method, path, params } => {
            assert_eq!((method.as_str(), path.as_str()), ("textDocument/hover", "m.go"));
            assert_eq!(at(&params, &["textDocument", "uri"]).as_str(), Some("file:///w/m.go"));
            assert_eq!(at(&params, &["position", "character"]).as_u64(), Some(2));
        }
        _ => panic!("expected an LSP request"),
    }
    assert_eq!(
        dispatch_tool("lsp_request", &o(vec![("method", s("textDocument/hover")), ("path", s("m.go"))]), "/w").err(),
        Some("missing field: line".to_string())
    );
}

#[test]
fn fifteen_distinct_tools_all_dispatch() {
    let tools = tool_definitions();
    assert_eq!(tools.len(), 15);
    let mut names: Vec<&str> = tools.iter().map(|t| at(t, &["name"]).as_str().unwrap()).collect();
    for n in &names {
        let r = dispatch_tool(n, &o(vec![]), "/w");
        assert_ne!(r.err(), Some(format!("Unknown tool: {}", n)));
    }
    for t in &tools {
        let schema = at(t, &["inputSchema"]);
        assert_eq!(at(schema, &["type"]).as_str(), Some("object"));
        for k in at(schema, &["required"]).as_array().unwrap() {
            assert!(at(schema, &["properties"]).get(k.as_str().unwrap()).is_some());
        }
    }
    names.sort();
    names.dedup();
    assert_eq!(names.len(), 15);
}

#[test]
fn fractional_ids_are_echoed() {
    let r = reply(handle_request(&o(vec![("id", JsonValue::Float("2.5".to_string())), ("method", s("nope"))])));
    assert!(matches!(at(&r, &["id"]), JsonValue::Float(t) if t == "2.5"));
}
