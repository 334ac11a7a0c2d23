use ws::cli::{
    command_route, default_server, http_request, pick_target, quote_word, remote_command, ssh_args, ssh_invocation,
    trim_end_slashes, Command, LspOptions, RemoteRequest, Target, DEFAULT_PORT,
};
use ws::json::JsonValue;

fn none() -> LspOptions {
    LspOptions {
        line: None,
        column: None,
        end_line: None,
        end_column: None,
        query: None,
        new_name: None,
        tab_size: None,
        insert_spaces: None,
    }
}

fn position(line: u32, column: u32) -> LspOptions {
    let mut o = none();
    o.line = Some(line);
    o.column = Some(column);
    o
}

fn field<'a>(v: &'a JsonValue, k: &str) -> &'a JsonValue {
    v.get(k).expect("member")
}

fn keys(v: &JsonValue) -> Vec<String> {
    v.as_object().unwrap().iter().map(|(k, _)| k.clone()).collect()
}

#[test]
fn commands_route_with_sorted_bodies() {
    let (route, body) = command_route(&Command::Write { path: "/a".to_string(), content: "hi".to_string() });
    assert_eq!(route, "write");
    assert_eq!(keys(&body), vec!["content", "path"]);
    assert_eq!(field(&body, "content").as_str(), Some("hi"));

    let (route, body) = command_route(&Command::Edit {
        path: "/a".to_string(),
        old_text: "x".to_string(),
        new_text: "y".to_string(),
    });
    assert_eq!(route, "edit");
    let edit = &field(&body, "edits").as_array().unwrap()[0];
    assert_eq!(keys(edit), vec!["new_text", "old_text"]);
    assert_eq!(field(edit, "old_text").as_str(), Some("x"));

    let (route, body) = command_route(&Command::Grep { pattern: "p".to_string(), path: None });
    assert_eq!(route, "grep");
    assert!(matches!(field(&body, "path"), JsonValue::Null));

    let (route, body) = command_route(&Command::Lsp {
        method: "textDocument/hover".to_string(),
        path: "a.go".to_string(),
        opts: position(3, 9),
    });
    assert_eq!(route, "lsp/request");
    assert_eq!(keys(&body), vec!["column", "line", "method", "path"]);
    assert_eq!(field(&body, "line").as_u64(), Some(3));
    let mut rename = position(1, 2);
    rename.new_name = Some("Next".to_string());
    rename.insert_spaces = Some(false);
    let (_, body) = command_route(&Command::Lsp { method: "textDocument/rename".to_string(), path: "a.go".to_string(), opts: rename });
    assert_eq!(keys(&body), vec!["column", "insert_spaces", "line", "method", "new_name", "path"]);
    assert_eq!(field(&body, "insert_spaces").as_bool(), Some(false));

    let (route, body) = command_route(&Command::Git { args: vec!["status".to_string(), "-s".to_string()] });
    assert_eq!(route, "bash");
    assert_eq!(field(&body, "command").as_str(), Some("git status -s"));
    let (_, body) = command_route(&Command::Git { args: vec![] });
    assert_eq!(field(&body, "command").as_str(), Some("git "));

    assert_eq!(command_route(&Command::Diagnose { path: "a".to_string() }).0, "lsp/diagnose");
    assert_eq!(command_route(&Command::LspSessions).0, "lsp-sessions");
    assert_eq!(command_route(&Command::Sessions).1.as_object().unwrap().len(), 0);
}

#[test]
fn ssh_words_are_the_command_as_typed() {
    assert_eq!(
        ssh_args(&Command::Write { path: "/a".to_string(), content: "hi".to_string() }),
        vec!["write", "/a", "hi"]
    );
    assert_eq!(
        ssh_args(&Command::Edit { path: "/a".to_string(), old_text: "x".to_string(), new_text: "y".to_string() }),
        vec!["edit", "/a", "x", "y"]
    );
    assert_eq!(ssh_args(&Command::Grep { pattern: "p".to_string(), path: None }), vec!["grep", "p"]);
    assert_eq!(
        ssh_args(&Command::Grep { pattern: "p".to_string(), path: Some("src".to_string()) }),
        vec!["grep", "p", "src"]
    );
    assert_eq!(
        ssh_args(&Command::Lsp { method: "m".to_string(), path: "f".to_string(), opts: position(10, 0) }),
        vec!["lsp", "m", "f", "10", "0"]
    );
    let mut q = none();
    q.query = Some("Service".to_string());
    assert_eq!(
        ssh_args(&Command::Lsp { method: "workspace/symbol".to_string(), path: "f".to_string(), opts: q }),
        vec!["lsp", "workspace/symbol", "f", "--query", "Service"]
    );
    let mut f = none();
    f.tab_size = Some(2);
    f.insert_spaces = Some(true);
    assert_eq!(
        ssh_args(&Command::Lsp { method: "textDocument/formatting".to_string(), path: "f".to_string(), opts: f }),
        vec!["lsp", "textDocument/formatting", "f", "--tab-size", "2", "--insert-spaces", "true"]
    );
    assert_eq!(
        ssh_args(&Command::Find { path: ".".to_string(), name: Some("*.rs".to_string()) }),
        vec!["find", ".", "--name", "*.rs"]
    );
    assert_eq!(ssh_args(&Command::Find { path: ".".to_string(), name: None }), vec!["find", "."]);
    assert_eq!(ssh_args(&Command::Sessions), vec!["sessions"]);
    assert_eq!(ssh_args(&Command::Diagnose { path: "a.go".to_string() }), vec!["diagnose", "a.go"]);
    assert_eq!(ssh_args(&Command::LspSessions), vec!["lsp-sessions"]);
    assert_eq!(
        ssh_args(&Command::Git { args: vec!["status".to_string(), "--short".to_string()] }),
        vec!["git", "status", "--short"]
    );
    assert_eq!(ssh_args(&Command::Kill { session_id: "0a".to_string() }), vec!["kill", "0a"]);
}

#[test]
fn tunnelled_write_is_the_same_command_on_the_far_side() {
    assert_eq!(
        ssh_invocation("u@h", &Command::Write { path: "a.txt".to_string(), content: "hi".to_string() }),
        vec![
            "-o",
            "StrictHostKeyChecking=no",
            "-o",
            "UserKnownHostsFile=/dev/null",
            "u@h",
            "ws 'write' 'a.txt' 'hi'"
        ]
    );
}

#[test]
fn words_are_shell_quoted() {
    assert_eq!(quote_word("plain"), "'plain'");
    assert_eq!(quote_word("it's"), "'it'\\''s'");
    assert_eq!(quote_word(""), "''");
    assert_eq!(
        remote_command(&Command::Bash { command: "echo 'hi' && ls".to_string() }),
        "ws 'bash' 'echo '\\''hi'\\'' && ls'"
    );
    assert_eq!(
        ssh_invocation("dev@box", &Command::Ls { path: "/w".to_string() }),
        vec![
            "-o",
            "StrictHostKeyChecking=no",
            "-o",
            "UserKnownHostsFile=/dev/null",
            "dev@box",
            "ws 'ls' '/w'"
        ]
    );
}

#[test]
fn http_requests() {
    match http_request("http://h:8321//", &Command::Read { path: "/a".to_string() }) {
        RemoteRequest::Post { url, body } => {
            assert_eq!(url, "http://h:8321/read");
            assert_eq!(body.get("path").unwrap().as_str(), Some("/a"));
        }
        _ => panic!("expected a POST"),
    }
    match http_request("http://h:8321", &Command::LspSessions) {
        RemoteRequest::Get { url } => assert_eq!(url, "http://h:8321/lsp/sessions"),
        _ => panic!("expected a GET"),
    }
    match http_request("http://h", &Command::Sessions) {
        RemoteRequest::Get { url } => assert_eq!(url, "http://h/sessions"),
        _ => panic!("expected a GET"),
    }
    match http_request("http://h/", &Command::Upload { local: "a.png".to_string(), remote: "/w/a.png".to_string() }) {
        RemoteRequest::Upload { url, path, local } => {
            assert_eq!((url.as_str(), path.as_str(), local.as_str()), ("http://h/upload", "/w/a.png", "a.png"));
        }
        _ => panic!("expected an upload"),
    }
    assert_eq!(trim_end_slashes("a///"), "a");
    assert_eq!(trim_end_slashes("///"), "");
}

#[test]
fn targets_prefer_ssh_then_the_flag_then_the_environment() {
    let t = pick_target(Some("a".to_string()), Some("b".to_string()), Some("u".to_string()), Some("v".to_string()));
    assert!(matches!(t, Target::Ssh(h) if h == "a"));
    let t = pick_target(None, Some("b".to_string()), Some("u".to_string()), Some("v".to_string()));
    assert!(matches!(t, Target::Ssh(h) if h == "b"));
    let t = pick_target(None, None, Some("u".to_string()), Some("v".to_string()));
    assert!(matches!(t, Target::Http(u) if u == "u"));
    let t = pick_target(None, None, None, Some("v".to_string()));
    assert!(matches!(t, Target::Http(u) if u == "v"));
    let t = pick_target(None, None, None, None);
    assert!(matches!(t, Target::Http(u) if u == "http://localhost:18765"));
    assert_eq!(default_server(), "http://localhost:18765");
    assert_eq!(DEFAULT_PORT, 18765);
}
