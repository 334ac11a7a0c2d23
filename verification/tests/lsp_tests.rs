use ws::json::JsonValue;
use ws::lsp::server::{for_extension, RootMode};
use ws::lsp::{
    absolute_path, classify_incoming, did_change_message, did_open_message, extension_for, find_root,
    is_served, language_id, list_sessions, lsp_params, process_message, skip_dir, sync_document,
    DiagnosticStore, DocumentVersions, Incoming, RequestIds, SessionRegistry, SyncKind,
};

fn s(v: &str) -> JsonValue {
    JsonValue::Str(v.to_string())
}

fn n(v: u64) -> JsonValue {
    JsonValue::UInt(v)
}

fn o(fields: Vec<(&str, JsonValue)>) -> JsonValue {
    JsonValue::Object(fields.into_iter().map(|(k, v)| (k.to_string(), v)).collect())
}

fn at<'a>(v: &'a JsonValue, path: &[&str]) -> &'a JsonValue {
    let mut cur = v;
    for k in path {
        cur = cur.get(k).expect("member");
    }
    cur
}

#[test]
fn builds_method_specific_params_and_rejects_bad_requests() {
    let cwd = "/workspace";
    let rename = o(vec![("line", n(2)), ("column", n(4)), ("new_name", s("renamed"))]);
    let params = lsp_params("/workspace/main.go", "textDocument/rename", &rename, cwd).unwrap();
    assert_eq!(at(&params, &["position", "line"]).as_u64(), Some(2));
    assert_eq!(at(&params, &["newName"]).as_str(), Some("renamed"));

    let symbols = o(vec![("query", s("Widget"))]);
    let params = lsp_params("/workspace/main.go", "workspace/symbol", &symbols, cwd).unwrap();
    assert_eq!(at(&params, &["query"]).as_str(), Some("Widget"));

    assert!(lsp_params("/workspace/main.go", "textDocument/hover", &symbols, cwd).is_err());
    assert!(lsp_params("/workspace/main.go", "unknown", &o(vec![]), cwd).is_err());

    // src/main.rs lies in /workspace/src; the workspace holds Cargo.toml.
    let ancestors = vec![
        ("/workspace/src".to_string(), false),
        ("/workspace".to_string(), true),
        ("/".to_string(), false),
    ];
    assert_eq!(
        find_root(RootMode::ProjectOrDir, cwd, "/workspace/src", &ancestors),
        cwd
    );
    let relative = o(vec![("line", n(0)), ("column", n(0))]);
    let params = lsp_params("src/main.rs", "textDocument/hover", &relative, cwd).unwrap();
    assert_eq!(
        at(&params, &["textDocument", "uri"]).as_str(),
        Some(format!("file://{}/src/main.rs", cwd).as_str())
    );
    assert_eq!(language_id("component.tsx", "typescript"), "typescriptreact");
    assert_eq!(language_id("component.jsx", "typescript"), "javascriptreact");
    assert_eq!(language_id("component.ts", "typescript"), "typescript");
}

#[test]
fn stores_latest_diagnostics_by_file_even_when_clean() {
    let mut store = DiagnosticStore::new();
    let diag = o(vec![
        ("range", o(vec![("start", o(vec![("line", n(2)), ("character", n(4))]))])),
        ("severity", n(1)),
        ("message", s("broken")),
    ]);
    process_message(
        &o(vec![(
            "params",
            o(vec![
                ("uri", s("file:///workspace/main.go")),
                ("diagnostics", JsonValue::Array(vec![diag])),
            ]),
        )]),
        &mut store,
    );
    assert_eq!(store.latest("/workspace/main.go").unwrap()[0].message, "broken");

    process_message(
        &o(vec![(
            "params",
            o(vec![
                ("uri", s("file:///workspace/main.go")),
                ("diagnostics", JsonValue::Array(vec![])),
            ]),
        )]),
        &mut store,
    );
    assert!(store.latest("/workspace/main.go").unwrap().is_empty());
}

#[test]
fn diagnostic_fields_default_when_missing() {
    let mut store = DiagnosticStore::new();
    let diag = o(vec![("range", o(vec![("start", o(vec![]))]))]);
    let no_range = o(vec![("message", s("skipped"))]);
    process_message(
        &o(vec![(
            "params",
            o(vec![
                ("uri", s("/plain/path.rs")),
                ("diagnostics", JsonValue::Array(vec![diag, no_range])),
            ]),
        )]),
        &mut store,
    );
    let d = store.latest("/plain/path.rs").unwrap();
    assert_eq!(d.len(), 1);
    assert_eq!((d[0].line, d[0].column, d[0].severity), (0, 0, 1));
    assert_eq!(d[0].message, "");
    assert_eq!(d[0].path, "/plain/path.rs");
    assert!(d[0].code.is_none());
}

#[test]
fn other_messages_keep_diagnostics() {
    let mut store = DiagnosticStore::new();
    process_message(
        &o(vec![("params", o(vec![("uri", s("file:///a.go")), ("diagnostics", JsonValue::Array(vec![]))]))]),
        &mut store,
    );
    process_message(&o(vec![("method", s("window/logMessage"))]), &mut store);
    assert!(store.latest("/a.go").is_some());
    assert!(store.latest("/b.go").is_none());
    store.clear("/a.go");
    assert!(store.latest("/a.go").is_none());
}

#[test]
fn extensions_and_servers() {
    assert_eq!(extension_for("/x/main.rs"), ".rs");
    assert_eq!(extension_for("/x/Makefile"), "");
    assert_eq!(extension_for("/x/archive.tar.gz"), ".gz");
    assert_eq!(extension_for("/x/.bashrc"), "");
    assert!(is_served("/x/main.go"));
    assert!(!is_served("/x/notes.txt"));
    assert!(!is_served("/x/Makefile"));
    assert_eq!(for_extension(".ts")[0].id, "typescript");
    assert!(for_extension(".nothing").is_empty());
    assert!(skip_dir(".git"));
    assert!(skip_dir("node_modules"));
    assert!(skip_dir("target"));
    assert!(!skip_dir("src"));
}

#[test]
fn absolute_paths_join_relative_ones() {
    assert_eq!(absolute_path("/etc/hosts", "/workspace"), "/etc/hosts");
    assert_eq!(absolute_path("a/b.rs", "/workspace"), "/workspace/a/b.rs");
}

#[test]
fn roots_by_mode() {
    let none = vec![("/w/a".to_string(), false), ("/w".to_string(), false)];
    assert_eq!(find_root(RootMode::Workspace, "/w", "/w/a", &none), "/w");
    assert_eq!(find_root(RootMode::Project, "/w", "/w/a", &none), "/w");
    assert_eq!(find_root(RootMode::ProjectOrDir, "/w", "/w/a", &none), "/w/a");
    let marked = vec![("/w/a".to_string(), true), ("/w".to_string(), true)];
    assert_eq!(find_root(RootMode::Project, "/w", "/w/a", &marked), "/w/a");
    assert_eq!(find_root(RootMode::Workspace, "/w", "/w/a", &marked), "/w");
}

#[test]
fn documents_open_once_then_change_with_rising_versions() {
    let mut versions = DocumentVersions::new();
    let first = sync_document(&mut versions, "/w/main.go", "go", "package main");
    assert!(matches!(first.0, SyncKind::Open));
    assert_eq!(at(&first.1, &["method"]).as_str(), Some("textDocument/didOpen"));
    assert_eq!(at(&first.1, &["params", "textDocument", "version"]).as_u64(), Some(1));
    let second = sync_document(&mut versions, "/w/main.go", "go", "package main // 2");
    assert!(matches!(second.0, SyncKind::Change));
    assert_eq!(at(&second.1, &["params", "textDocument", "version"]).as_u64(), Some(2));
    let third = sync_document(&mut versions, "/w/main.go", "go", "x");
    assert_eq!(at(&third.1, &["params", "textDocument", "version"]).as_u64(), Some(3));
    let other = sync_document(&mut versions, "/w/other.go", "go", "y");
    assert!(matches!(other.0, SyncKind::Open));
}

#[test]
fn open_and_change_messages() {
    let open = did_open_message("/w/a.ts", "typescript", "let x = 1;");
    assert_eq!(at(&open, &["params", "textDocument", "uri"]).as_str(), Some("file:///w/a.ts"));
    assert_eq!(at(&open, &["params", "textDocument", "languageId"]).as_str(), Some("typescript"));
    assert_eq!(at(&open, &["params", "textDocument", "text"]).as_str(), Some("let x = 1;"));
    let change = did_change_message("/w/a.ts", 7, "y");
    assert_eq!(at(&change, &["params", "textDocument", "version"]).as_u64(), Some(7));
}

#[test]
fn incoming_messages_are_told_apart() {
    assert!(matches!(classify_incoming(&o(vec![("method", s("x"))])), Incoming::Notification));
    assert!(matches!(classify_incoming(&o(vec![("id", n(9))])), Incoming::Response(9)));
    assert!(matches!(classify_incoming(&o(vec![])), Incoming::Other));
}

#[test]
fn request_ids_start_at_two_and_rise() {
    let mut ids = RequestIds::new();
    assert_eq!(ids.take(), 2);
    assert_eq!(ids.take(), 3);
}

#[test]
fn one_session_per_server_and_root() {
    let mut reg: SessionRegistry<u32> = SessionRegistry::new();
    let a = reg.register("gopls".to_string(), "/w".to_string(), 10);
    assert_eq!(reg.find("gopls", "/w"), Some(a));
    assert_eq!(*reg.handle(a), 10);
    assert_eq!(reg.find("gopls", "/other"), None);
    let b = reg.register("gopls".to_string(), "/other".to_string(), 11);
    assert_ne!(a, b);
    let listed = list_sessions(&reg);
    assert_eq!(
        listed,
        vec![
            ("gopls".to_string(), "/w".to_string()),
            ("gopls".to_string(), "/other".to_string())
        ]
    );
}

#[test]
fn request_ids_wrap_like_an_atomic_counter() {
    let mut ids = RequestIds { next: u64::MAX };
    assert_eq!(ids.take(), u64::MAX);
    assert_eq!(ids.take(), 0);
    assert_eq!(ids.take(), 1);
}
