use ws::json::{get_str, get_u64, JsonValue};
use ws::lsp::download::{
    archive_ext, ensure, extract_command, github_platform, install_command, is_extracted_binary,
    pick_asset, release_asset, which_result, EnsureAction, EnsureEvent, EnsureStage, LspInstall,
};
use ws::lsp::framing::{frame_bounds_of, frame_message};
use ws::lsp::request::{
    diagnostics_timeout_error, request_result, request_server, wait_step, PendingRequests, Reply, WaitAction,
};
use ws::lsp::server::servers;
use ws::lsp::{binary_path, list_servers, reconcile_step, root_mode_name, Diagnostic, ReconcileAction};
use ws::lsp::server::RootMode;
use ws::table::Table;
use ws::text::{decimal_string, join_strings, lines_of, replace_str, trim_str};

fn s(v: &str) -> JsonValue {
    JsonValue::Str(v.to_string())
}

fn o(fields: Vec<(&str, JsonValue)>) -> JsonValue {
    JsonValue::Object(fields.into_iter().map(|(k, v)| (k.to_string(), v)).collect())
}

#[test]
fn frames_round_trip() {
    let framed = frame_message(b"{\"id\":1}");
    assert_eq!(framed, b"Content-Length: 8\r\n\r\n{\"id\":1}".to_vec());
    let mut data = framed.clone();
    data.extend_from_slice(b"Content-Length: 2");
    let (a, b) = frame_bounds_of(&data).unwrap();
    assert_eq!(&data[a..b], b"{\"id\":1}");
}

#[test]
fn incomplete_or_broken_frames_wait() {
    assert_eq!(frame_bounds_of(b"Content-Length: 10\r\n\r\n{}"), None);
    assert_eq!(frame_bounds_of(b"Content-Length: 2\r\n"), None);
    assert_eq!(frame_bounds_of(b"X: 1\r\n\r\n{}"), None);
    assert_eq!(frame_bounds_of(&[0xff, 0xfe, 13, 10, 13, 10]), None);
    let ok = b"Other: x\r\nContent-Length:  2 \r\n\r\n{}rest";
    let (a, b) = frame_bounds_of(ok).unwrap();
    assert_eq!(&ok[a..b], b"{}");
}

#[test]
fn text_helpers() {
    assert_eq!(trim_str("  a b \n"), "a b");
    assert_eq!(lines_of("a\r\nb\n\nc"), vec!["a", "b", "", "c"]);
    assert!(lines_of("").is_empty());
    assert_eq!(replace_str("a.b.c", ".", "_"), "a_b_c");
    assert_eq!(join_strings(&vec!["x".to_string(), "y".to_string()], ", "), "x, y");
    assert_eq!(decimal_string(0), "0");
    assert_eq!(decimal_string(18446744073709551615), "18446744073709551615");
}

#[test]
fn json_lookups() {
    let v = o(vec![("a", JsonValue::UInt(1)), ("b", s("x")), ("a", JsonValue::UInt(2))]);
    assert_eq!(get_u64(&v, "a"), Some(1));
    assert_eq!(get_str(&v, "b"), Some("x"));
    assert_eq!(get_str(&v, "a"), None);
    assert!(JsonValue::Null.get("a").is_none());
}

#[test]
fn tables_keep_first_insertion_order() {
    let mut t: Table<u32> = Table::new();
    t.insert("b".to_string(), 1);
    t.insert("a".to_string(), 2);
    t.insert("b".to_string(), 3);
    assert_eq!(t.len(), 2);
    assert_eq!(t.entry(0), (&"b".to_string(), &3));
    assert_eq!(t.get("a"), Some(&2));
    assert_eq!(t.remove("b"), Some(3));
    assert_eq!(t.get("b"), None);
    assert_eq!(t.position("a"), Some(0));
}

#[test]
fn binaries_come_from_path_cache_or_install() {
    let npm = LspInstall::Npm { package: "pyright", binary: "pyright-langserver" };
    let (st, act) = ensure(&npm, EnsureStage::Start, EnsureEvent::Begin);
    assert!(matches!(st, EnsureStage::LookedOnPath));
    assert!(matches!(act, EnsureAction::Which(ref b) if b == "pyright-langserver"));
    let (st, act) = ensure(&npm, st, EnsureEvent::Which(Err("x not found".to_string())));
    assert!(matches!(st, EnsureStage::LookedInCache));
    assert!(matches!(act, EnsureAction::CheckCache(_)));
    let (st, act) = ensure(&npm, st, EnsureEvent::Cached(None));
    assert!(matches!(st, EnsureStage::Installing));
    assert!(matches!(act, EnsureAction::Install));
    let (st, act) = ensure(&npm, st, EnsureEvent::Installed(Ok(())));
    assert!(matches!(st, EnsureStage::LookedAfterInstall));
    let _ = act;
    let (st, act) = ensure(&npm, st, EnsureEvent::Cached(None));
    assert!(matches!(st, EnsureStage::Done));
    match act {
        EnsureAction::Finish(Err(e)) => assert_eq!(e, "failed to find pyright-langserver after installation"),
        _ => panic!("expected an error"),
    }
    let sys = LspInstall::System { binary: "clangd" };
    let (_, act) = ensure(&sys, EnsureStage::LookedInCache, EnsureEvent::Cached(None));
    match act {
        EnsureAction::Finish(Err(e)) => assert_eq!(e, "clangd not found on PATH. Please install it manually."),
        _ => panic!("a system binary is never installed"),
    }
    let (_, act) = ensure(&sys, EnsureStage::LookedOnPath, EnsureEvent::Which(Ok("/usr/bin/clangd".to_string())));
    assert!(matches!(act, EnsureAction::Finish(Ok(ref p)) if p == "/usr/bin/clangd"));
    assert_eq!(which_result(true, " /bin/x\n", "x"), Ok("/bin/x".to_string()));
    assert_eq!(which_result(false, "", "x"), Err("x not found".to_string()));
}

#[test]
fn install_commands() {
    let npm = LspInstall::Npm { package: "pyright", binary: "pyright-langserver" };
    let (p, args) = install_command(&npm, "/tmp/ws-lsp").unwrap();
    assert_eq!(p, "npm");
    assert_eq!(args, vec!["install", "-g", "--prefix", "/tmp/ws-lsp", "pyright"]);
    let cargo = LspInstall::Cargo { crate_name: "taplo-cli", binary: "taplo" };
    assert_eq!(install_command(&cargo, "/t").unwrap().1, vec!["install", "--root", "/t", "taplo-cli"]);
    assert!(install_command(&LspInstall::System { binary: "x" }, "/t").is_none());
    assert_eq!(cargo.binary_name(), "taplo");
}

#[test]
fn release_assets() {
    assert_eq!(github_platform("macos", "x86_64"), ("darwin".to_string(), "amd64".to_string()));
    assert_eq!(github_platform("linux", "aarch64"), ("linux".to_string(), "arm64".to_string()));
    let names = vec!["tool_Darwin_ARM64.zip".to_string(), "tool_Linux_AMD64.tar.gz".to_string()];
    assert_eq!(pick_asset(&names, "linux", "amd64", "tool"), Some(1));
    assert_eq!(pick_asset(&names, "windows", "amd64", "tool"), None);
    let release = o(vec![
        ("tag_name", s("v1.2")),
        (
            "assets",
            JsonValue::Array(vec![
                o(vec![("name", s("tool_Darwin_ARM64.zip"))]),
                o(vec![("name", s("tool_Linux_AMD64.tar.gz")), ("browser_download_url", s("https://x/t.tar.gz"))]),
            ]),
        ),
    ]);
    assert_eq!(
        release_asset(&release, "linux", "amd64", "o/tool", "tool"),
        Ok(("v1.2".to_string(), "https://x/t.tar.gz".to_string()))
    );
    assert_eq!(
        release_asset(&release, "darwin", "arm64", "o/tool", "tool"),
        Err("no download url".to_string())
    );
    assert_eq!(
        release_asset(&release, "windows", "amd64", "o/tool", "tool"),
        Err("no matching asset for windows/amd64 in o/tool".to_string())
    );
    assert_eq!(release_asset(&o(vec![]), "linux", "amd64", "o/tool", "tool"), Err("no assets".to_string()));
    let untagged = o(vec![(
        "assets",
        JsonValue::Array(vec![o(vec![("name", s("tool-linux-amd64")), ("browser_download_url", s("u"))])]),
    )]);
    assert_eq!(release_asset(&untagged, "linux", "amd64", "r", "tool"), Ok(("latest".to_string(), "u".to_string())));
    assert_eq!(archive_ext("https://x/a.zip"), "zip");
    assert_eq!(archive_ext("https://x/a.tgz"), "tar.gz");
    let (prog, args, err) = extract_command("zip", "/t/a.zip", "/t");
    assert_eq!((prog.as_str(), err.as_str()), ("unzip", "unzip failed"));
    assert_eq!(args, vec!["-o", "/t/a.zip", "-d", "/t"]);
    let (prog, args, err) = extract_command("tar.gz", "/t/a.tar.gz", "/t");
    assert_eq!((prog.as_str(), err.as_str()), ("tar", "tar extraction failed"));
    assert_eq!(args, vec!["xzf", "/t/a.tar.gz", "-C", "/t"]);
    assert!(is_extracted_binary("terraform-ls", "terraform-ls"));
    assert!(!is_extracted_binary("terraform-ls.zip", "terraform-ls"));
}

#[test]
fn requests_go_to_the_first_server() {
    assert_eq!(request_server(".go").unwrap().id, "gopls");
    assert_eq!(request_server(".zzz").err(), Some("no LSP server for .zzz".to_string()));
    assert_eq!(request_result("textDocument/hover", Reply::TimedOut).err(), Some("timed out waiting for textDocument/hover".to_string()));
    assert_eq!(request_result("m", Reply::Closed).err(), Some("LSP response channel closed".to_string()));
    assert_eq!(request_result("m", Reply::Answer(JsonValue::UInt(4))).unwrap().as_u64(), Some(4));
    assert_eq!(
        diagnostics_timeout_error("gopls", "/w/a.go"),
        "timed out waiting for gopls diagnostics for /w/a.go"
    );
}

#[test]
fn diagnostics_are_waited_for_six_hundred_times() {
    assert!(matches!(wait_step(0, None), WaitAction::Wait));
    assert!(matches!(wait_step(599, None), WaitAction::Wait));
    assert!(matches!(wait_step(600, None), WaitAction::GiveUp));
    let d = vec![Diagnostic {
        path: "/a".to_string(),
        line: 0,
        column: 0,
        severity: 2,
        message: "m".to_string(),
        code: Some("E1".to_string()),
    }];
    match wait_step(3, Some(d)) {
        WaitAction::Found(v) => assert_eq!(v[0].code.as_deref(), Some("E1")),
        _ => panic!("expected the diagnostics"),
    }
}

#[test]
fn servers_and_reconciliation() {
    let all = servers();
    let listed = list_servers();
    assert_eq!(all.len(), listed.len());
    assert_eq!(get_str(&listed[0], "id"), Some(all[0].id));
    assert_eq!(root_mode_name(RootMode::ProjectOrDir), "project_or_dir");
    assert_eq!(binary_path(true, "/usr/bin/gopls\n"), Some("/usr/bin/gopls".to_string()));
    assert_eq!(binary_path(false, "/x"), None);
    assert!(matches!(reconcile_step((0, 0), true, false, false).0, ReconcileAction::Install));
    assert!(matches!(reconcile_step((0, 0), true, true, false).0, ReconcileAction::Keep));
    assert!(matches!(reconcile_step((0, 0), false, true, true).0, ReconcileAction::Remove));
    assert!(matches!(reconcile_step((0, 0), false, false, false).0, ReconcileAction::Keep));
}

#[test]
fn reconciling_settles() {
    let (first, counts) = reconcile_step((0, 0), true, false, false);
    assert!(matches!(first, ReconcileAction::Install));
    assert_eq!(counts, (1, 0));
    assert!(matches!(reconcile_step(counts, true, false, true).0, ReconcileAction::Keep));
    let (gone, counts) = reconcile_step((0, 0), false, false, true);
    assert!(matches!(gone, ReconcileAction::Remove));
    assert_eq!(counts, (0, 1));
    assert!(matches!(reconcile_step(counts, false, false, false).0, ReconcileAction::Keep));
}

#[test]
fn no_prefix_of_a_frame_is_read() {
    let framed = frame_message(b"{\"id\":2}");
    for q in 0..framed.len() {
        assert_eq!(frame_bounds_of(&framed[..q]), None);
    }
    assert!(frame_bounds_of(&framed).is_some());
}

#[test]
fn answers_go_to_the_request_with_their_id() {
    let mut p: PendingRequests<&str> = PendingRequests::new();
    p.register(2, "first");
    p.register(3, "second");
    assert_eq!(p.take(3), Some("second"));
    assert_eq!(p.take(3), None);
    assert_eq!(p.take(2), Some("first"));
    assert_eq!(p.take(7), None);
}

#[test]
fn fractional_numbers_keep_their_text() {
    let v = JsonValue::Float("2.5".to_string());
    match v.deep_copy() {
        JsonValue::Float(t) => assert_eq!(t, "2.5"),
        _ => panic!("expected a number"),
    }
}
