//! The HTTP server's requests: which call a POST asks for, what it refuses,
//! and the documents it answers with.
use vstd::prelude::*;
use crate::json::{arr, get_str, js_get, jstr, jv, jv_items, lemma_jv_items, obj1, obj2, Json, JsonValue};
use crate::lsp::{lsp_params, params_for};
use crate::mcp::{arg, opt_str, opt_usize, optional_str, optional_usize, required};
use crate::text::{str_eq, views};

verus! {

/// A call that a POST to the server asks for, its fields read.
#[allow(inconsistent_fields)]
pub enum HttpCall {
    Read { path: String, offset: Option<usize>, limit: Option<usize> },
    Bash { command: String },
    Edit { path: String, edits: JsonValue },
    Write { path: String, content: String },
    Grep { pattern: String, path: Option<String> },
    Find { path: String, name: Option<String> },
    Ls { path: String },
    Spawn { command: String },
    Logs { session_id: String },
    Status { session_id: String },
    Kill { session_id: String },
    PkgInstall { package: String },
    PkgSearch { query: String },
    PkgRemove { package: String },
    Diagnose { path: String },
    LspRequest { method: String, path: String, params: JsonValue },
}

/// A POST's call as plain values.
pub enum HttpView {
    Read(Seq<char>, Option<usize>, Option<usize>),
    Bash(Seq<char>),
    Edit(Seq<char>, Json),
    Write(Seq<char>, Seq<char>),
    Grep(Seq<char>, Option<Seq<char>>),
    Find(Seq<char>, Option<Seq<char>>),
    Ls(Seq<char>),
    Spawn(Seq<char>),
    Logs(Seq<char>),
    Status(Seq<char>),
    Kill(Seq<char>),
    PkgInstall(Seq<char>),
    PkgSearch(Seq<char>),
    PkgRemove(Seq<char>),
    Diagnose(Seq<char>),
    LspRequest(Seq<char>, Seq<char>, Json),
}

/// The view of a call.
pub open spec fn http_view(c: HttpCall) -> HttpView {
    match c {
        HttpCall::Read { path, offset, limit } => HttpView::Read(path@, offset, limit),
        HttpCall::Bash { command } => HttpView::Bash(command@),
        HttpCall::Edit { path, edits } => HttpView::Edit(path@, jv(edits)),
        HttpCall::Write { path, content } => HttpView::Write(path@, content@),
        HttpCall::Grep { pattern, path } => HttpView::Grep(pattern@, opt_str(path)),
        HttpCall::Find { path, name } => HttpView::Find(path@, opt_str(name)),
        HttpCall::Ls { path } => HttpView::Ls(path@),
        HttpCall::Spawn { command } => HttpView::Spawn(command@),
        HttpCall::Logs { session_id } => HttpView::Logs(session_id@),
        HttpCall::Status { session_id } => HttpView::Status(session_id@),
        HttpCall::Kill { session_id } => HttpView::Kill(session_id@),
        HttpCall::PkgInstall { package } => HttpView::PkgInstall(package@),
        HttpCall::PkgSearch { query } => HttpView::PkgSearch(query@),
        HttpCall::PkgRemove { package } => HttpView::PkgRemove(package@),
        HttpCall::Diagnose { path } => HttpView::Diagnose(path@),
        HttpCall::LspRequest { method, path, params } => HttpView::LspRequest(
            method@,
            path@,
            jv(params),
        ),
    }
}

/// A call with one required string field.
pub open spec fn with_field(body: Json, key: Seq<char>, make: spec_fn(Seq<char>) -> HttpView) -> Option<
    Result<HttpView, Seq<char>>,
> {
    match arg(body, key) {
        Ok(v) => Some(Ok(make(v))),
        Err(e) => Some(Err(e)),
    }
}

/// The call that a POST of `body` to `route` asks for; an error names the
/// missing field (`edits` are "missing edits"); nothing for a route that
/// takes no such POST. `cwd` is the directory relative paths start from.
pub open spec fn http_call_for(route: Seq<char>, body: Json, cwd: Seq<char>) -> Option<
    Result<HttpView, Seq<char>>,
> {
    if route == "read"@ {
        with_field(
            body,
            "path"@,
            |p: Seq<char>| HttpView::Read(p, opt_usize(body, "offset"@), opt_usize(body, "limit"@)),
        )
    } else if route == "bash"@ {
        with_field(body, "command"@, |c: Seq<char>| HttpView::Bash(c))
    } else if route == "edit"@ {
        match arg(body, "path"@) {
            Err(e) => Some(Err(e)),
            Ok(p) => match js_get(body, "edits"@) {
                None => Some(Err("missing edits"@)),
                Some(e) => Some(Ok(HttpView::Edit(p, e))),
            },
        }
    } else if route == "write"@ {
        match arg(body, "path"@) {
            Err(e) => Some(Err(e)),
            Ok(p) => with_field(body, "content"@, |c: Seq<char>| HttpView::Write(p, c)),
        }
    } else if route == "grep"@ {
        with_field(
            body,
            "pattern"@,
            |p: Seq<char>| HttpView::Grep(p, crate::json::js_str(js_get(body, "path"@))),
        )
    } else if route == "find"@ {
        with_field(
            body,
            "path"@,
            |p: Seq<char>| HttpView::Find(p, crate::json::js_str(js_get(body, "name"@))),
        )
    } else if route == "ls"@ {
        with_field(body, "path"@, |p: Seq<char>| HttpView::Ls(p))
    } else if route == "spawn"@ {
        with_field(body, "command"@, |c: Seq<char>| HttpView::Spawn(c))
    } else if route == "logs"@ {
        with_field(body, "session_id"@, |i: Seq<char>| HttpView::Logs(i))
    } else if route == "status"@ {
        with_field(body, "session_id"@, |i: Seq<char>| HttpView::Status(i))
    } else if route == "kill"@ {
        with_field(body, "session_id"@, |i: Seq<char>| HttpView::Kill(i))
    } else if route == "pkg/install"@ {
        with_field(body, "package"@, |p: Seq<char>| HttpView::PkgInstall(p))
    } else if route == "pkg/search"@ {
        with_field(body, "query"@, |q: Seq<char>| HttpView::PkgSearch(q))
    } else if route == "pkg/remove"@ {
        with_field(body, "package"@, |p: Seq<char>| HttpView::PkgRemove(p))
    } else if route == "lsp/diagnose"@ {
        with_field(body, "path"@, |p: Seq<char>| HttpView::Diagnose(p))
    } else if route == "lsp/request"@ {
        match arg(body, "method"@) {
            Err(e) => Some(Err(e)),
            Ok(m) => match arg(body, "path"@) {
                Err(e) => Some(Err(e)),
                Ok(p) => match params_for(p, m, body, cwd) {
                    Err(e) => Some(Err(e)),
                    Ok(params) => Some(Ok(HttpView::LspRequest(m, p, params))),
                },
            },
        }
    } else {
        None
    }
}

/// The result of reading a call.
pub open spec fn call_result(r: Option<Result<HttpCall, String>>) -> Option<Result<HttpView, Seq<char>>> {
    match r {
        None => None,
        Some(Ok(c)) => Some(Ok(http_view(c))),
        Some(Err(e)) => Some(Err(e@)),
    }
}

/// Reads a POST of `body` to `route`: the call it asks for, the error that
/// refuses it (answered with 400), or nothing for a route that takes no
/// such POST.
pub fn http_call(route: &str, body: &JsonValue, cwd: &str) -> (r: Option<Result<HttpCall, String>>)
    ensures
        call_result(r) == http_call_for(route@, jv(*body), cwd@),
{
    if str_eq(route, "read") {
        Some(
            match required(body, "path") {
                Ok(path) => Ok(
                    HttpCall::Read {
                        path,
                        offset: optional_usize(body, "offset"),
                        limit: optional_usize(body, "limit"),
                    },
                ),
                Err(e) => Err(e),
            },
        )
    } else if str_eq(route, "bash") {
        Some(
            match required(body, "command") {
                Ok(command) => Ok(HttpCall::Bash { command }),
                Err(e) => Err(e),
            },
        )
    } else if str_eq(route, "edit") {
        let path = match required(body, "path") {
            Ok(p) => p,
            Err(e) => {
                return Some(Err(e));
            },
        };
        match body.get("edits") {
            None => Some(Err("missing edits".to_owned())),
            Some(e) => Some(Ok(HttpCall::Edit { path, edits: e.deep_copy() })),
        }
    } else if str_eq(route, "write") {
        let path = match required(body, "path") {
            Ok(p) => p,
            Err(e) => {
                return Some(Err(e));
            },
        };
        Some(
            match required(body, "content") {
                Ok(content) => Ok(HttpCall::Write { path, content }),
                Err(e) => Err(e),
            },
        )
    } else if str_eq(route, "grep") {
        Some(
            match required(body, "pattern") {
                Ok(pattern) => Ok(HttpCall::Grep { pattern, path: optional_str(body, "path") }),
                Err(e) => Err(e),
            },
        )
    } else if str_eq(route, "find") {
        Some(
            match required(body, "path") {
                Ok(path) => Ok(HttpCall::Find { path, name: optional_str(body, "name") }),
                Err(e) => Err(e),
            },
        )
    } else if str_eq(route, "ls") {
        Some(
            match required(body, "path") {
                Ok(path) => Ok(HttpCall::Ls { path }),
                Err(e) => Err(e),
            },
        )
    } else if str_eq(route, "spawn") {
        Some(
            match required(body, "command") {
                Ok(command) => Ok(HttpCall::Spawn { command }),
                Err(e) => Err(e),
            },
        )
    } else if str_eq(route, "logs") {
        Some(
            match required(body, "session_id") {
                Ok(session_id) => Ok(HttpCall::Logs { session_id }),
                Err(e) => Err(e),
            },
        )
    } else if str_eq(route, "status") {
        Some(
            match required(body, "session_id") {
                Ok(session_id) => Ok(HttpCall::Status { session_id }),
                Err(e) => Err(e),
            },
        )
    } else if str_eq(route, "kill") {
        Some(
            match required(body, "session_id") {
                Ok(session_id) => Ok(HttpCall::Kill { session_id }),
                Err(e) => Err(e),
            },
        )
    } else if str_eq(route, "pkg/install") {
        Some(
            match required(body, "package") {
                Ok(package) => Ok(HttpCall::PkgInstall { package }),
                Err(e) => Err(e),
            },
        )
    } else if str_eq(route, "pkg/search") {
        Some(
            match required(body, "query") {
                Ok(query) => Ok(HttpCall::PkgSearch { query }),
                Err(e) => Err(e),
            },
        )
    } else if str_eq(route, "pkg/remove") {
        Some(
            match required(body, "package") {
                Ok(package) => Ok(HttpCall::PkgRemove { package }),
                Err(e) => Err(e),
            },
        )
    } else if str_eq(route, "lsp/diagnose") {
        Some(
            match required(body, "path") {
                Ok(path) => Ok(HttpCall::Diagnose { path }),
                Err(e) => Err(e),
            },
        )
    } else if str_eq(route, "lsp/request") {
        let method = match required(body, "method") {
            Ok(m) => m,
            Err(e) => {
                return Some(Err(e));
            },
        };
        let path = match required(body, "path") {
            Ok(p) => p,
            Err(e) => {
                return Some(Err(e));
            },
        };
        Some(
            match lsp_params(path.as_str(), method.as_str(), body, cwd) {
                Ok(params) => Ok(HttpCall::LspRequest { method, path, params }),
                Err(e) => Err(e),
            },
        )
    } else {
        None
    }
}

/// The body of a refusal: `{"error": message}`.
pub fn error_body(message: &str) -> (v: JsonValue)
    ensures
        jv(v) == Json::Object(seq![("error"@, Json::Str(message@))]),
{
    obj1("error", jstr(message))
}

/// The answer to a package install or removal: `{"ok": true, "msg": msg}`.
pub fn pkg_done_body(msg: &str) -> (v: JsonValue)
    ensures
        jv(v) == Json::Object(seq![("ok"@, Json::Bool(true)), ("msg"@, Json::Str(msg@))]),
{
    obj2("ok", JsonValue::Bool(true), "msg", jstr(msg))
}

/// The answer to a package search or listing: `{"packages": [...]}`.
pub fn packages_body(packages: &Vec<String>) -> (v: JsonValue)
    ensures
        jv(v) == Json::Object(
            seq![("packages"@, Json::Array(views(packages@).map_values(|s: Seq<char>| Json::Str(s))))],
        ),
{
    let mut items: Vec<JsonValue> = Vec::new();
    let mut i: usize = 0;
    while i < packages.len()
        invariant
            i <= packages@.len(),
            items@.len() == i,
            forall|j: int| 0 <= j < i ==> jv(#[trigger] items@[j]) == Json::Str(packages@[j]@),
        decreases packages@.len() - i,
    {
        items.push(jstr(packages[i].as_str()));
        i += 1;
    }
    proof {
        lemma_jv_items(items@);
        assert(jv_items(items@) =~= views(packages@).map_values(|s: Seq<char>| Json::Str(s)));
    }
    obj1("packages", arr(items))
}

/// A grep POST searches the directory its body names: when the body has a
/// string `pattern` and a string `path`, the call is a grep for that
/// pattern limited to exactly that path; only a body whose `path` is
/// missing or not a string leaves the search to the whole workspace.
pub proof fn law_grep_keeps_its_directory(body: Json, cwd: Seq<char>, pattern: Seq<char>)
    requires
        js_get(body, "pattern"@) == Some(Json::Str(pattern)),
    ensures
        forall|dir: Seq<char>|
            js_get(body, "path"@) == Some(Json::Str(dir)) ==> http_call_for("grep"@, body, cwd)
                == Some(Ok::<HttpView, Seq<char>>(HttpView::Grep(pattern, Some(dir)))),
        js_get(body, "path"@) is None ==> http_call_for("grep"@, body, cwd) == Some(
            Ok::<HttpView, Seq<char>>(HttpView::Grep(pattern, None)),
        ),
        match http_call_for("grep"@, body, cwd) {
            Some(Ok(HttpView::Grep(p, None))) => p == pattern && !(js_get(body, "path"@) matches Some(Json::Str(_))),
            Some(Ok(HttpView::Grep(p, Some(d)))) => p == pattern && js_get(body, "path"@) == Some(Json::Str(d)),
            _ => false,
        },
{
    reveal_strlit("grep");
    reveal_strlit("read");
    reveal_strlit("bash");
    reveal_strlit("edit");
    reveal_strlit("write");
    assert("grep"@ != "read"@ && "grep"@ != "bash"@ && "grep"@ != "edit"@ && "grep"@ != "write"@) by {
        assert("grep"@.len() != "write"@.len());
        assert("grep"@[0] != "read"@[0] && "grep"@[0] != "bash"@[0] && "grep"@[0] != "edit"@[0]);
    }
}

/// The answer to a reconciliation of the language servers:
/// `{"installed": added, "uninstalled": removed}`.
pub fn reconcile_body(added: u64, removed: u64) -> (v: JsonValue)
    ensures
        jv(v) == Json::Object(
            seq![("installed"@, Json::UInt(added)), ("uninstalled"@, Json::UInt(removed))],
        ),
{
    obj2("installed", JsonValue::UInt(added), "uninstalled", JsonValue::UInt(removed))
}

} // verus!
