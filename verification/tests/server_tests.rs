use ws::json::JsonValue;
use ws::server::{error_body, http_call, packages_body, pkg_done_body, reconcile_body, HttpCall};

fn s(v: &str) -> JsonValue {
    JsonValue::Str(v.to_string())
}

fn o(fields: Vec<(&str, JsonValue)>) -> JsonValue {
    JsonValue::Object(fields.into_iter().map(|(k, v)| (k.to_string(), v)).collect())
}

#[test]
fn posts_name_their_call() {
    match http_call("read", &o(vec![("path", s("/a"))]), "/w") {
        Some(Ok(HttpCall::Read { path, offset, limit })) => {
            assert_eq!(path, "/a");
            assert_eq!((offset, limit), (None, None));
        }
        _ => panic!("expected read"),
    }
    match http_call("read", &o(vec![("path", s("/a")), ("offset", JsonValue::UInt(5)), ("limit", JsonValue::UInt(2))]), "/w") {
        Some(Ok(HttpCall::Read { offset, limit, .. })) => assert_eq!((offset, limit), (Some(5), Some(2))),
        _ => panic!("expected a ranged read"),
    }
    match http_call("pkg/install", &o(vec![("package", s("jq"))]), "/w") {
        Some(Ok(HttpCall::PkgInstall { package })) => assert_eq!(package, "jq"),
        _ => panic!("expected an install"),
    }
    match http_call("find", &o(vec![("path", s("/a")), ("name", s("*.rs"))]), "/w") {
        Some(Ok(HttpCall::Find { path, name })) => {
            assert_eq!(path, "/a");
            assert_eq!(name.as_deref(), Some("*.rs"));
        }
        _ => panic!("expected find"),
    }
}

#[test]
fn posts_missing_fields_are_refused() {
    assert_eq!(
        http_call("bash", &o(vec![]), "/w").unwrap().err(),
        Some("missing field: command".to_string())
    );
    assert_eq!(
        http_call("edit", &o(vec![("path", s("/a"))]), "/w").unwrap().err(),
        Some("missing edits".to_string())
    );
    assert_eq!(
        http_call("lsp/request", &o(vec![("method", s("textDocument/hover"))]), "/w").unwrap().err(),
        Some("missing field: path".to_string())
    );
    assert_eq!(
        http_call("lsp/request", &o(vec![("method", s("bogus")), ("path", s("a.go"))]), "/w").unwrap().err(),
        Some("unsupported LSP method: bogus".to_string())
    );
    assert!(http_call("nowhere", &o(vec![]), "/w").is_none());
}

#[test]
fn answer_bodies() {
    let e = error_body("boom");
    assert_eq!(e.get("error").unwrap().as_str(), Some("boom"));
    let d = pkg_done_body("ok!");
    assert_eq!(d.get("ok").unwrap().as_bool(), Some(true));
    assert_eq!(d.get("msg").unwrap().as_str(), Some("ok!"));
    let p = packages_body(&vec!["a".to_string(), "b".to_string()]);
    let items = p.get("packages").unwrap().as_array().unwrap();
    assert_eq!(items.len(), 2);
    assert_eq!(items[1].as_str(), Some("b"));
    let r = reconcile_body(2, 1);
    assert_eq!(r.get("installed").unwrap().as_u64(), Some(2));
    assert_eq!(r.get("uninstalled").unwrap().as_u64(), Some(1));
}
