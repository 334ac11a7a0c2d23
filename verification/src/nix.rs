//! Workspace packages through Nix: what to install, what the profile
//! holds, and the `ws.yaml` and `ws.lock` files that record them.
use vstd::prelude::*;
use crate::json::{get_str, js_array, js_get, js_str, jv, jv_fields, lemma_jv_fields, Json, JsonValue};
use crate::text::{
    chars_of, concat, find_chars, find_from, joined, join_strings, last_line, last_line_of,
    lemma_find_from, lemma_views_push, lines, lines_of, push_char, push_unique, replace_all,
    replace_str, split_once, split_once_str, str_contains, strip_prefix, strip_prefix_str,
    strip_suffix, strip_suffix_str, string_of_range, trim, trim_str, views, contains_seq,
    contains_string, has_prefix,
};

verus! {

/// A package request `name@version` as its name and version (empty when
/// none is given).
pub open spec fn split_package(input: Seq<char>) -> (Seq<char>, Seq<char>) {
    match split_once(input, '@') {
        Some((n, v)) => (n, v),
        None => (input, seq![]),
    }
}

/// The name and version of a package request.
pub fn package_parts(input: &str) -> (r: (String, String))
    ensures
        (r.0@, r.1@) == split_package(input@),
{
    match split_once_str(input, '@') {
        Some((n, v)) => (n, v),
        None => (input.to_owned(), String::new()),
    }
}

/// The flake attributes tried, in order, to install `name` at `version`
/// from `flake`: the plain attribute when no version is given; else
/// `name@version`, then `name_version` with dots as underscores, then with
/// the dots dropped.
pub open spec fn install_attrs(flake: Seq<char>, name: Seq<char>, version: Seq<char>) -> Seq<
    Seq<char>,
> {
    let base = flake + "#"@ + name;
    if version.len() == 0 {
        seq![base]
    } else {
        seq![
            base + "@"@ + version,
            base + "_"@ + replace_all(version, seq!['.'], "_"@),
            base + "_"@ + replace_all(version, seq!['.'], seq![]),
        ]
    }
}

/// What installing a package will try.
pub struct InstallPlan {
    pub name: String,
    pub version: String,
    pub attrs: Vec<String>,
}

/// The plan for a package request.
pub open spec fn plan_of(plan: InstallPlan, input: Seq<char>, flake: Seq<char>) -> bool {
    &&& (plan.name@, plan.version@) == split_package(input)
    &&& views(plan.attrs@) == install_attrs(flake, plan.name@, plan.version@)
}

/// The plan for installing a package request from `flake`.
fn make_plan(input: &str, flake: &str) -> (p: InstallPlan)
    ensures
        plan_of(p, input@, flake@),
{
    let (name, version) = package_parts(input);
    let hash = concat(flake, "#");
    let base = concat(hash.as_str(), name.as_str());
    let mut attrs: Vec<String> = Vec::new();
    if version.as_str().is_empty() {
        attrs.push(base);
        proof {
            reveal_strlit("#");
            assert(views(attrs@) =~= seq![base@]);
        }
    } else {
        proof {
            reveal_strlit(".");
            assert("."@ =~= seq!['.']);
            reveal_strlit("");
            assert(""@ =~= Seq::<char>::empty());
        }
        let a = concat(base.as_str(), "@");
        let a = concat(a.as_str(), version.as_str());
        let b = concat(base.as_str(), "_");
        let b = concat(b.as_str(), replace_str(version.as_str(), ".", "_").as_str());
        let c = concat(base.as_str(), "_");
        let c = concat(c.as_str(), replace_str(version.as_str(), ".", "").as_str());
        attrs.push(a);
        attrs.push(b);
        attrs.push(c);
        proof {
            assert(views(attrs@) =~= install_attrs(flake@, name@, version@));
        }
    }
    InstallPlan { name, version, attrs }
}

/// Plans installing a package the user asked for, and records its name
/// among the explicitly installed packages (the ones `ws.yaml` lists).
pub fn install(explicit: &mut Vec<String>, input: &str, flake: &str) -> (p: InstallPlan)
    requires
        views(old(explicit)@).no_duplicates(),
    ensures
        plan_of(p, input@, flake@),
        views(final(explicit)@).no_duplicates(),
        forall|s: Seq<char>| #[trigger]
            views(final(explicit)@).contains(s) <==> (views(old(explicit)@).contains(s) || s
                == split_package(input@).0),
{
    let p = make_plan(input, flake);
    push_unique(explicit, p.name.as_str());
    p
}

/// Plans installing a package that something else needs (a language
/// server); it is not recorded as explicit.
pub fn install_auto(input: &str, flake: &str) -> (p: InstallPlan)
    ensures
        plan_of(p, input@, flake@),
{
    make_plan(input, flake)
}

/// How running a nix command went.
pub enum Attempt {
    /// No nix binary was found.
    NixMissing,
    /// The command could not be run.
    SpawnFailed(String),
    /// It ran; whether it succeeded, and what it printed on stderr.
    Ran { success: bool, stderr: String },
}

/// What to do next while installing.
pub enum InstallStep {
    /// Run `nix profile add` with this attribute.
    Try(String),
    /// Stop with this message or error.
    Finish(Result<String, String>),
}

/// The error given when no nix binary is found.
pub open spec fn nix_missing() -> Seq<char> {
    "Nix not found. Mount /nix from host."@
}

/// The step after attempt `index` of a plan, as plain values: the first
/// attribute that installs finishes with its last stderr line; with no
/// version given, a failure finishes with the trimmed stderr; with a
/// version, the next attribute is tried, and when none is left the
/// version is reported missing.
pub open spec fn install_next(
    name: Seq<char>,
    version: Seq<char>,
    attrs: Seq<Seq<char>>,
    index: int,
    attempt: Attempt,
) -> Result<Seq<char>, Result<Seq<char>, Seq<char>>> {
    match attempt {
        Attempt::NixMissing => Err(Err(nix_missing())),
        Attempt::SpawnFailed(e) => Err(Err("nix install: "@ + e@)),
        Attempt::Ran { success, stderr } => if success {
            Err(
                Ok(
                    if version.len() == 0 {
                        "installed "@ + name + ": "@ + last_line(stderr@)
                    } else {
                        "installed "@ + name + "@"@ + version + ": "@ + last_line(stderr@)
                    },
                ),
            )
        } else if version.len() == 0 {
            Err(Err(trim(stderr@)))
        } else if index + 1 < attrs.len() {
            Ok(attrs[index + 1])
        } else {
            Err(Err("no version "@ + name + "@"@ + version + " found in nixpkgs"@))
        },
    }
}

/// The view of an install step: `Ok` for an attribute to try, `Err` for
/// the final answer.
pub open spec fn step_view(s: InstallStep) -> Result<Seq<char>, Result<Seq<char>, Seq<char>>> {
    match s {
        InstallStep::Try(a) => Ok(a@),
        InstallStep::Finish(Ok(m)) => Err(Ok(m@)),
        InstallStep::Finish(Err(e)) => Err(Err(e@)),
    }
}

/// The first step of a plan: try its first attribute.
pub fn first_step(plan: &InstallPlan) -> (s: InstallStep)
    requires
        plan.attrs@.len() > 0,
    ensures
        step_view(s) == Ok::<Seq<char>, Result<Seq<char>, Seq<char>>>(plan.attrs@[0]@),
{
    InstallStep::Try(plan.attrs[0].clone())
}

/// The step after attempt `index` of a plan.
pub fn install_step(plan: &InstallPlan, index: usize, attempt: Attempt) -> (s: InstallStep)
    requires
        index < plan.attrs@.len(),
    ensures
        step_view(s) == install_next(plan.name@, plan.version@, views(plan.attrs@), index as int, attempt),
{
    match attempt {
        Attempt::NixMissing => InstallStep::Finish(Err("Nix not found. Mount /nix from host.".to_owned())),
        Attempt::SpawnFailed(e) => InstallStep::Finish(Err(concat("nix install: ", e.as_str()))),
        Attempt::Ran { success, stderr } => {
            if success {
                let last = last_line_of(stderr.as_str());
                let head = if plan.version.as_str().is_empty() {
                    concat("installed ", plan.name.as_str())
                } else {
                    let a = concat("installed ", plan.name.as_str());
                    let b = concat(a.as_str(), "@");
                    concat(b.as_str(), plan.version.as_str())
                };
                let msg = concat(head.as_str(), ": ");
                InstallStep::Finish(Ok(concat(msg.as_str(), last.as_str())))
            } else if plan.version.as_str().is_empty() {
                InstallStep::Finish(Err(trim_str(stderr.as_str())))
            } else if index < plan.attrs.len() - 1 {
                InstallStep::Try(plan.attrs[index + 1].clone())
            } else {
                let a = concat("no version ", plan.name.as_str());
                let b = concat(a.as_str(), "@");
                let c = concat(b.as_str(), plan.version.as_str());
                InstallStep::Finish(Err(concat(c.as_str(), " found in nixpkgs")))
            }
        },
    }
}

/// Installing a package at a version tries each of its three spellings in
/// order: after a failed attempt at any spelling but the last, the next
/// one is tried (the last being the version with its dots dropped), and
/// the version is reported missing only once the last spelling has failed.
pub proof fn law_each_spelling_tried(plan: InstallPlan, input: Seq<char>, flake: Seq<char>, i: int, stderr: String)
    requires
        plan_of(plan, input, flake),
        plan.version@.len() > 0,
        0 <= i < plan.attrs@.len(),
    ensures
        views(plan.attrs@).len() == 3,
        views(plan.attrs@)[2] == flake + "#"@ + plan.name@ + "_"@ + replace_all(plan.version@, seq!['.'], seq![]),
        i + 1 < 3 ==> install_next(plan.name@, plan.version@, views(plan.attrs@), i, Attempt::Ran { success: false, stderr })
            == Ok::<Seq<char>, Result<Seq<char>, Seq<char>>>(views(plan.attrs@)[i + 1]),
        install_next(plan.name@, plan.version@, views(plan.attrs@), i, Attempt::Ran { success: false, stderr }) is Err
            ==> i == 2,
{
}

/// The answer of removing a package, as plain values.
pub open spec fn remove_answer(attempt: Attempt) -> Result<Seq<char>, Seq<char>> {
    match attempt {
        Attempt::NixMissing => Err(nix_missing()),
        Attempt::SpawnFailed(e) => Err("nix remove: "@ + e@),
        Attempt::Ran { success, stderr } => if success {
            Ok("removed"@)
        } else {
            Err(trim(stderr@))
        },
    }
}

/// The answer of `nix profile remove`: `"removed"`, or the trimmed stderr.
pub fn remove(attempt: Attempt) -> (r: Result<String, String>)
    ensures
        match r {
            Ok(m) => remove_answer(attempt) == Ok::<Seq<char>, Seq<char>>(m@),
            Err(e) => remove_answer(attempt) == Err::<Seq<char>, Seq<char>>(e@),
        },
{
    match attempt {
        Attempt::NixMissing => Err("Nix not found. Mount /nix from host.".to_owned()),
        Attempt::SpawnFailed(e) => Err(concat("nix remove: ", e.as_str())),
        Attempt::Ran { success, stderr } => if success {
            Ok("removed".to_owned())
        } else {
            Err(trim_str(stderr.as_str()))
        },
    }
}

/// The answer of a sync, once the workspace files were written (or not).
pub fn sync(written: Result<(), String>) -> (r: Result<String, String>)
    ensures
        match written {
            Ok(()) => r matches Ok(m) && m@ == "ws.yaml + ws.lock updated"@,
            Err(e) => r matches Err(x) && x@ == e@,
        },
{
    match written {
        Ok(()) => Ok("ws.yaml + ws.lock updated".to_owned()),
        Err(e) => Err(e),
    }
}

/// `s[i..]` with its ANSI escape sequences (from ESC up to and including
/// the next `m`) removed; `escaped` says whether an escape is open.
pub open spec fn strip_ansi_from(s: Seq<char>, i: int, escaped: bool) -> Seq<char>
    decreases s.len() - i,
{
    if i < 0 || i >= s.len() {
        seq![]
    } else if escaped {
        strip_ansi_from(s, i + 1, s[i] != 'm')
    } else if s[i] == '\x1b' {
        strip_ansi_from(s, i + 1, true)
    } else {
        seq![s[i]] + strip_ansi_from(s, i + 1, false)
    }
}

/// `s` with its ANSI escape sequences removed.
pub open spec fn strip_ansi(s: Seq<char>) -> Seq<char> {
    strip_ansi_from(s, 0, false)
}

/// The results of `nix search`: its output without colour codes, one
/// line per entry.
pub fn search(stdout: &str) -> (r: Vec<String>)
    ensures
        views(r@) == lines(strip_ansi(stdout@)),
{
    let cs = chars_of(stdout);
    let mut cleaned = String::new();
    let mut escaped = false;
    let mut i: usize = 0;
    while i < cs.len()
        invariant
            i <= cs@.len(),
            cs@ == stdout@,
            cleaned@ + strip_ansi_from(cs@, i as int, escaped) == strip_ansi(stdout@),
        decreases cs@.len() - i,
    {
        let c = cs[i];
        let ghost before = cleaned@;
        if escaped {
            if c == 'm' {
                escaped = false;
            }
        } else if c == '\x1b' {
            escaped = true;
        } else {
            push_char(&mut cleaned, c);
            assert(before + strip_ansi_from(cs@, i as int, false) =~= cleaned@ + strip_ansi_from(
                cs@,
                i + 1,
                false,
            ));
        }
        i += 1;
    }
    assert(strip_ansi_from(cs@, i as int, escaped) =~= Seq::<char>::empty());
    assert(cleaned@ + Seq::<char>::empty() =~= cleaned@);
    lines_of(cleaned.as_str())
}

/// The store path recorded for a profile element: its first store path,
/// or empty.
pub open spec fn store_of(info: Json) -> Seq<char> {
    match js_array(js_get(info, "storePaths"@)) {
        Some(a) => if a.len() > 0 {
            match a[0] {
                Json::Str(p) => p,
                _ => seq![],
            }
        } else {
            seq![]
        },
        None => seq![],
    }
}

/// The packages a profile lists (`nix profile list --json`): each element's
/// name with its store path, in the order of the listing.
pub open spec fn installed_of(profile: Json) -> Seq<(Seq<char>, Seq<char>)> {
    match js_get(profile, "elements"@) {
        Some(Json::Object(fs)) => fs.map_values(|f: (Seq<char>, Json)| (f.0, store_of(f.1))),
        _ => seq![],
    }
}

/// The views of a list of string pairs.
pub open spec fn pair_views(v: Seq<(String, String)>) -> Seq<(Seq<char>, Seq<char>)> {
    v.map_values(|p: (String, String)| (p.0@, p.1@))
}

/// The store path recorded for a profile element.
fn store_path(info: &JsonValue) -> (r: String)
    ensures
        r@ == store_of(jv(*info)),
{
    match info.get("storePaths") {
        Some(v) => match v.as_array() {
            Some(a) => {
                proof {
                    crate::json::lemma_jv_items(a@);
                }
                if a.len() > 0 {
                    match a[0].as_str() {
                        Some(p) => p.to_owned(),
                        None => String::new(),
                    }
                } else {
                    String::new()
                }
            },
            None => String::new(),
        },
        None => String::new(),
    }
}

/// The packages a profile lists, with their store paths.
pub fn get_installed(profile: &JsonValue) -> (r: Vec<(String, String)>)
    ensures
        pair_views(r@) == installed_of(jv(*profile)),
{
    let mut r: Vec<(String, String)> = Vec::new();
    let fields = match profile.get("elements") {
        Some(e) => match e.as_object() {
            Some(f) => f,
            None => {
                assert(pair_views(r@) =~= Seq::<(Seq<char>, Seq<char>)>::empty());
                return r;
            },
        },
        None => {
            assert(pair_views(r@) =~= Seq::<(Seq<char>, Seq<char>)>::empty());
            return r;
        },
    };
    proof {
        lemma_jv_fields(fields@);
    }
    let ghost fs = jv_fields(fields@);
    let mut i: usize = 0;
    while i < fields.len()
        invariant
            i <= fields@.len(),
            fs == jv_fields(fields@),
            fs.len() == fields@.len(),
            forall|k: int|
                0 <= k < fields@.len() ==> #[trigger] fs[k] == (fields@[k].0@, jv(fields@[k].1)),
            pair_views(r@) == fs.take(i as int).map_values(
                |f: (Seq<char>, Json)| (f.0, store_of(f.1)),
            ),
        decreases fields@.len() - i,
    {
        let (name, info) = (&fields[i].0, &fields[i].1);
        let ghost before = r@;
        let sp = store_path(info);
        r.push((name.clone(), sp));
        proof {
            assert(fs[i as int] == (name@, jv(*info)));
            assert(pair_views(r@) =~= pair_views(before).push((name@, sp@)));
            assert(fs.take(i + 1) =~= fs.take(i as int).push(fs[i as int]));
            assert(pair_views(r@) =~= fs.take(i + 1).map_values(
                |f: (Seq<char>, Json)| (f.0, store_of(f.1)),
            ));
        }
        i += 1;
    }
    proof {
        assert(fs.take(i as int) =~= fs);
    }
    r
}

/// The names of the packages a profile lists.
pub fn list(profile: &JsonValue) -> (r: Vec<String>)
    ensures
        views(r@) == installed_of(jv(*profile)).map_values(|p: (Seq<char>, Seq<char>)| p.0),
{
    let pkgs = get_installed(profile);
    let mut r: Vec<String> = Vec::new();
    let mut i: usize = 0;
    while i < pkgs.len()
        invariant
            i <= pkgs@.len(),
            pair_views(pkgs@) == installed_of(jv(*profile)),
            views(r@) == pair_views(pkgs@).take(i as int).map_values(
                |p: (Seq<char>, Seq<char>)| p.0,
            ),
        decreases pkgs@.len() - i,
    {
        let ghost before = r@;
        r.push(pkgs[i].0.clone());
        proof {
            lemma_views_push(before, r@.last());
            assert(views(r@) =~= pair_views(pkgs@).take(i + 1).map_values(
                |p: (Seq<char>, Seq<char>)| p.0,
            ));
        }
        i += 1;
    }
    proof {
        assert(pair_views(pkgs@).take(i as int) =~= pair_views(pkgs@));
    }
    r
}

/// The last position of `c` in `s[..i]`.
pub open spec fn rfind_before(s: Seq<char>, c: char, i: int) -> Option<int>
    decreases i,
{
    if i <= 0 || i > s.len() {
        None
    } else if s[i - 1] == c {
        Some(i - 1)
    } else {
        rfind_before(s, c, i - 1)
    }
}

/// The last component of a store path (what follows its last `/`).
pub open spec fn store_name(path: Seq<char>) -> Seq<char> {
    match rfind_before(path, '/', path.len() as int) {
        Some(j) => path.subrange(j + 1, path.len() as int),
        None => path,
    }
}

/// A store path whose version can be read: its name has no `-`, or a
/// second `-` after the first. (For any other, reading the version fails.)
pub open spec fn version_readable(path: Seq<char>) -> bool {
    match split_once(store_name(path), '-') {
        None => true,
        Some((_, rest)) => contains_seq(rest, seq!['-']),
    }
}

/// The version in a store path `/nix/store/<hash>-<name>-<version>`: what
/// follows the second `-` of its last component; empty when that
/// component has no `-`.
pub open spec fn version_of(path: Seq<char>) -> Seq<char> {
    match split_once(store_name(path), '-') {
        None => seq![],
        Some((_, rest)) => match find_from(rest, seq!['-'], 0) {
            Some(d) => rest.subrange(d + 1, rest.len() as int),
            None => seq![],
        },
    }
}

/// The last component of a store path.
fn store_name_of(path: &str) -> (r: String)
    ensures
        r@ == store_name(path@),
{
    let cs = chars_of(path);
    let mut i = cs.len();
    while i > 0
        invariant
            i <= cs@.len(),
            cs@ == path@,
            rfind_before(cs@, '/', cs@.len() as int) == rfind_before(cs@, '/', i as int),
        decreases i,
    {
        if cs[i - 1] == '/' {
            return string_of_range(&cs, i, cs.len());
        }
        i -= 1;
    }
    proof {
        assert(cs@.subrange(0, cs@.len() as int) =~= cs@);
    }
    string_of_range(&cs, 0, cs.len())
}

/// Whether the version of a store path can be read.
pub fn version_extractable(path: &str) -> (b: bool)
    ensures
        b == version_readable(path@),
{
    let name = store_name_of(path);
    match split_once_str(name.as_str(), '-') {
        None => true,
        Some((_, rest)) => {
            proof {
                reveal_strlit("-");
                assert("-"@ =~= seq!['-']);
            }
            str_contains(rest.as_str(), "-")
        },
    }
}

/// The version in a store path.
pub fn extract_version(store_path: &str) -> (r: String)
    requires
        version_readable(store_path@),
    ensures
        r@ == version_of(store_path@),
{
    let name = store_name_of(store_path);
    match split_once_str(name.as_str(), '-') {
        None => String::new(),
        Some((_, rest)) => {
            let cs = chars_of(rest.as_str());
            let dash: Vec<char> = vec!['-'];
            assert(dash@ =~= seq!['-']);
            match find_chars(&cs, &dash, 0) {
                Some(d) => {
                    proof {
                        lemma_find_from(cs@, dash@, 0);
                    }
                    let n = cs.len();
                    assert(d < n);
                    string_of_range(&cs, d + 1, n)
                },
                None => String::new(),
            }
        },
    }
}

/// The flake that packages come from: the nixpkgs revision that `ws.lock`
/// pins, if its text is given and a line (trimmed) reads
/// `nixpkgs_revision: "<rev>"` with a non-empty revision; else `nixpkgs`.
pub open spec fn flake_for(lock: Option<Seq<char>>) -> Seq<char> {
    match lock {
        None => "nixpkgs"@,
        Some(c) => match pinned_revision(lines(c), 0) {
            Some(r) => "github:NixOS/nixpkgs/"@ + r,
            None => "nixpkgs"@,
        },
    }
}

/// The first revision that lines `ls[k..]` pin.
pub open spec fn pinned_revision(ls: Seq<Seq<char>>, k: int) -> Option<Seq<char>>
    decreases ls.len() - k,
{
    if k < 0 || k >= ls.len() {
        None
    } else {
        match strip_prefix(trim(ls[k]), "nixpkgs_revision: \""@) {
            Some(r1) => match strip_suffix(r1, "\""@) {
                Some(r) => if r.len() > 0 {
                    Some(r)
                } else {
                    pinned_revision(ls, k + 1)
                },
                None => pinned_revision(ls, k + 1),
            },
            None => pinned_revision(ls, k + 1),
        }
    }
}

/// The flake that packages come from, given the text of `ws.lock` if it
/// could be read.
pub fn resolve_flake(lock: Option<&str>) -> (r: String)
    ensures
        r@ == flake_for(match lock {
            Some(c) => Some(c@),
            None => None,
        }),
{
    let content = match lock {
        Some(c) => c,
        None => {
            return "nixpkgs".to_owned();
        },
    };
    let ls = lines_of(content);
    let mut k: usize = 0;
    while k < ls.len()
        invariant
            k <= ls@.len(),
            views(ls@) == lines(content@),
            lock == Some(content),
            pinned_revision(lines(content@), 0) == pinned_revision(lines(content@), k as int),
        decreases ls@.len() - k,
    {
        assert(views(ls@)[k as int] == ls@[k as int]@);
        let t = trim_str(ls[k].as_str());
        match strip_prefix_str(t.as_str(), "nixpkgs_revision: \"") {
            Some(r1) => match strip_suffix_str(r1.as_str(), "\"") {
                Some(r) => {
                    if !r.as_str().is_empty() {
                        return concat("github:NixOS/nixpkgs/", r.as_str());
                    }
                },
                None => {},
            },
            None => {},
        }
        k += 1;
    }
    "nixpkgs".to_owned()
}

/// The packages that lines `ls[k..]` of `ws.yaml` list: each line that,
/// trimmed, reads `- <name>` with a non-empty name.
pub open spec fn yaml_entries(ls: Seq<Seq<char>>) -> Seq<Seq<char>>
    decreases ls.len(),
{
    if ls.len() == 0 {
        seq![]
    } else {
        let rest = yaml_entries(ls.drop_last());
        match strip_prefix(trim(ls.last()), "- "@) {
            Some(n) => if n.len() > 0 {
                rest.push(n)
            } else {
                rest
            },
            None => rest,
        }
    }
}

/// The packages that `ws.yaml` lists, in order.
pub fn yaml_packages(content: &str) -> (r: Vec<String>)
    ensures
        views(r@) == yaml_entries(lines(content@)),
{
    let ls = lines_of(content);
    let mut r: Vec<String> = Vec::new();
    let mut k: usize = 0;
    while k < ls.len()
        invariant
            k <= ls@.len(),
            views(ls@) == lines(content@),
            views(r@) == yaml_entries(lines(content@).take(k as int)),
        decreases ls@.len() - k,
    {
        let ghost l = lines(content@);
        proof {
            assert(l.take(k + 1).drop_last() =~= l.take(k as int));
            assert(l.take(k + 1).last() == ls@[k as int]@);
        }
        let t = trim_str(ls[k].as_str());
        match strip_prefix_str(t.as_str(), "- ") {
            Some(n) => {
                if !n.as_str().is_empty() {
                    let ghost before = r@;
                    r.push(n);
                    proof {
                        lemma_views_push(before, r@.last());
                    }
                }
            },
            None => {},
        }
        k += 1;
    }
    proof {
        assert(lines(content@).take(k as int) =~= lines(content@));
    }
    r
}

/// The name a listed package is installed under: what precedes `@`.
pub open spec fn listed_name(pkg: Seq<char>) -> Seq<char> {
    split_package(pkg).0
}

/// The listed packages that the profile does not hold yet, each with the
/// name it is installed under (its version is not passed on).
pub open spec fn missing_from(desired: Seq<Seq<char>>, current: Seq<Seq<char>>) -> Seq<
    (Seq<char>, Seq<char>),
>
    decreases desired.len(),
{
    if desired.len() == 0 {
        seq![]
    } else {
        let rest = missing_from(desired.drop_last(), current);
        let pkg = desired.last();
        if current.contains(listed_name(pkg)) {
            rest
        } else {
            rest.push((pkg, listed_name(pkg)))
        }
    }
}
/// The names that applying `desired` installs.
pub open spec fn applied_names(desired: Seq<Seq<char>>, current: Seq<Seq<char>>) -> Seq<Seq<char>> {
    missing_from(desired, current).map_values(|p: (Seq<char>, Seq<char>)| p.1)
}

/// Every listed package's name is in the profile or among the names that
/// applying installs.
proof fn lemma_applied_covers(desired: Seq<Seq<char>>, current: Seq<Seq<char>>)
    ensures
        forall|i: int|
            0 <= i < desired.len() ==> current.contains(listed_name(#[trigger] desired[i]))
                || applied_names(desired, current).contains(listed_name(desired[i])),
    decreases desired.len(),
{
    if desired.len() > 0 {
        let init = desired.drop_last();
        lemma_applied_covers(init, current);
        let m0 = missing_from(init, current);
        let pkg = desired.last();
        assert forall|i: int| 0 <= i < desired.len() implies current.contains(
            listed_name(#[trigger] desired[i]),
        ) || applied_names(desired, current).contains(listed_name(desired[i])) by {
            if i < desired.len() - 1 {
                assert(desired[i] == init[i]);
                if !current.contains(listed_name(init[i])) {
                    let k = choose|k: int|
                        0 <= k < applied_names(init, current).len() && applied_names(init, current)[k]
                            == listed_name(init[i]);
                    if !current.contains(listed_name(pkg)) {
                        assert(missing_from(desired, current) == m0.push((pkg, listed_name(pkg))));
                        assert(applied_names(desired, current)[k] == applied_names(init, current)[k]);
                    } else {
                        assert(missing_from(desired, current) == m0);
                    }
                }
            } else if !current.contains(listed_name(pkg)) {
                assert(missing_from(desired, current) == m0.push((pkg, listed_name(pkg))));
                let n = m0.len() as int;
                assert(applied_names(desired, current)[n] == listed_name(pkg));
            }
        }
    }
}

/// With every listed name in the profile, nothing is left to install.
proof fn lemma_nothing_missing(desired: Seq<Seq<char>>, current: Seq<Seq<char>>)
    requires
        forall|i: int| 0 <= i < desired.len() ==> current.contains(listed_name(#[trigger] desired[i])),
    ensures
        missing_from(desired, current) == Seq::<(Seq<char>, Seq<char>)>::empty(),
    decreases desired.len(),
{
    if desired.len() > 0 {
        let init = desired.drop_last();
        assert forall|i: int| 0 <= i < init.len() implies current.contains(
            listed_name(#[trigger] init[i]),
        ) by {
            assert(init[i] == desired[i]);
        }
        lemma_nothing_missing(init, current);
        assert(current.contains(listed_name(desired[desired.len() - 1])));
    }
}

/// Applying `ws.yaml` is idempotent: once the packages it installed are in
/// the profile, applying it again installs nothing.
pub proof fn law_apply_is_idempotent(desired: Seq<Seq<char>>, current: Seq<Seq<char>>)
    ensures
        missing_from(desired, current + applied_names(desired, current)) == Seq::<
            (Seq<char>, Seq<char>),
        >::empty(),
{
    lemma_applied_covers(desired, current);
    let after = current + applied_names(desired, current);
    assert forall|i: int| 0 <= i < desired.len() implies after.contains(
        listed_name(#[trigger] desired[i]),
    ) by {
        if current.contains(listed_name(desired[i])) {
            let k = choose|k: int| 0 <= k < current.len() && current[k] == listed_name(desired[i]);
            assert(after[k] == current[k]);
        } else {
            let a = applied_names(desired, current);
            let k = choose|k: int| 0 <= k < a.len() && a[k] == listed_name(desired[i]);
            assert(after[current.len() + k] == a[k]);
        }
    }
    lemma_nothing_missing(desired, after);
}

/// The packages of `ws.yaml` to install (the decision of applying it):
/// each listed package whose name the profile does not hold.
pub fn packages_to_apply(desired: &Vec<String>, current: &Vec<String>) -> (r: Vec<(String, String)>)
    ensures
        pair_views(r@) == missing_from(views(desired@), views(current@)),
{
    let mut r: Vec<(String, String)> = Vec::new();
    let mut k: usize = 0;
    while k < desired.len()
        invariant
            k <= desired@.len(),
            pair_views(r@) == missing_from(views(desired@).take(k as int), views(current@)),
        decreases desired@.len() - k,
    {
        let ghost d = views(desired@);
        proof {
            assert(d.take(k + 1).drop_last() =~= d.take(k as int));
            assert(d.take(k + 1).last() == desired@[k as int]@);
        }
        let (name, _) = package_parts(desired[k].as_str());
        if !contains_string(current, name.as_str()) {
            let ghost before = r@;
            r.push((desired[k].clone(), name));
            proof {
                assert(pair_views(r@) =~= pair_views(before).push((desired@[k as int]@, r@.last().1@)));
            }
        }
        k += 1;
    }
    proof {
        assert(views(desired@).take(k as int) =~= views(desired@));
    }
    r
}

/// The line that reports a package installed by applying `ws.yaml`.
pub fn apply_entry(pkg: &str, msg: &str) -> (r: String)
    ensures
        r@ == "  "@ + pkg@ + ": "@ + msg@,
{
    let a = concat("  ", pkg);
    let b = concat(a.as_str(), ": ");
    concat(b.as_str(), msg)
}

/// The answer of applying `ws.yaml`, given the lines of what it installed.
pub fn apply_summary(installed: &Vec<String>) -> (r: String)
    ensures
        installed@.len() == 0 ==> r@ == "all packages already installed"@,
        installed@.len() > 0 ==> r@ == "installed:\n"@ + joined(views(installed@), "\n"@),
{
    if installed.len() == 0 {
        "all packages already installed".to_owned()
    } else {
        let body = join_strings(installed, "\n");
        concat("installed:\n", body.as_str())
    }
}

/// Profile elements that the workspace files never list.
pub open spec fn is_base_package(name: Seq<char>) -> bool {
    name == "nix"@ || name == "nix-manual"@ || name == "nss-cacert"@
}

/// The `ws.lock` entry of a package.
pub open spec fn lock_entry(name: Seq<char>, store: Seq<char>) -> Seq<char> {
    "  "@ + name + ":\n      version: \""@ + version_of(store) + "\"\n      store: \""@ + store
        + "\""@
}

/// The `ws.lock` entries of the packages `pkgs`, base packages left out.
pub open spec fn lock_entries(pkgs: Seq<(Seq<char>, Seq<char>)>) -> Seq<Seq<char>>
    decreases pkgs.len(),
{
    if pkgs.len() == 0 {
        seq![]
    } else {
        let rest = lock_entries(pkgs.drop_last());
        let (name, store) = pkgs.last();
        if is_base_package(name) {
            rest
        } else {
            rest.push(lock_entry(name, store))
        }
    }
}

/// The `ws.yaml` entries of the packages `pkgs`: those the user asked for,
/// base packages left out.
pub open spec fn yaml_lines(pkgs: Seq<(Seq<char>, Seq<char>)>, explicit: Seq<Seq<char>>) -> Seq<
    Seq<char>,
>
    decreases pkgs.len(),
{
    if pkgs.len() == 0 {
        seq![]
    } else {
        let rest = yaml_lines(pkgs.drop_last(), explicit);
        let name = pkgs.last().0;
        if is_base_package(name) || !explicit.contains(name) {
            rest
        } else {
            rest.push("  - "@ + name)
        }
    }
}

/// The text of `ws.yaml`.
pub open spec fn yaml_text(pkgs: Seq<(Seq<char>, Seq<char>)>, explicit: Seq<Seq<char>>) -> Seq<char> {
    "# ws packages \u{2014} managed by 'ws nix'\npackages:\n"@ + joined(yaml_lines(pkgs, explicit), "\n"@)
        + "\n"@
}

/// The text of `ws.lock`.
pub open spec fn lock_text(pkgs: Seq<(Seq<char>, Seq<char>)>, revision: Option<Seq<char>>) -> Seq<
    char,
> {
    "# ws lockfile \u{2014} auto-generated, commit this\n"@ + (match revision {
        Some(r) => "nixpkgs_revision: \""@ + r + "\"\n"@,
        None => seq![],
    }) + "packages:\n"@ + joined(lock_entries(pkgs), "\n"@) + "\n"@
}

/// The texts of `ws.yaml` and `ws.lock` for the packages of a profile
/// (`installed`), the packages the user asked for (`explicit`), and the
/// nixpkgs revision, if it is known.
pub fn render_workspace_files(
    installed: &Vec<(String, String)>,
    explicit: &Vec<String>,
    revision: Option<&str>,
) -> (r: (String, String))
    requires
        forall|i: int|
            0 <= i < installed@.len() && !is_base_package(#[trigger] installed@[i].0@) ==> version_readable(
                installed@[i].1@,
            ),
    ensures
        r.0@ == yaml_text(pair_views(installed@), views(explicit@)),
        r.1@ == lock_text(
            pair_views(installed@),
            match revision {
                Some(x) => Some(x@),
                None => None,
            },
        ),
{
    let ghost ps = pair_views(installed@);
    let mut lock_pkgs: Vec<String> = Vec::new();
    let mut yaml_pkgs: Vec<String> = Vec::new();
    let mut k: usize = 0;
    while k < installed.len()
        invariant
            k <= installed@.len(),
            ps == pair_views(installed@),
            forall|i: int|
            0 <= i < installed@.len() && !is_base_package(#[trigger] installed@[i].0@) ==> version_readable(
                installed@[i].1@,
            ),
            views(lock_pkgs@) == lock_entries(ps.take(k as int)),
            views(yaml_pkgs@) == yaml_lines(ps.take(k as int), views(explicit@)),
        decreases installed@.len() - k,
    {
        proof {
            assert(ps.take(k + 1).drop_last() =~= ps.take(k as int));
            assert(ps.take(k + 1).last() == (installed@[k as int].0@, installed@[k as int].1@));
        }
        let name = installed[k].0.as_str();
        let store = installed[k].1.as_str();
        let is_base = crate::text::str_eq(name, "nix") || crate::text::str_eq(name, "nix-manual")
            || crate::text::str_eq(name, "nss-cacert");
        if !is_base {
            let version = extract_version(store);
            let a = concat("  ", name);
            let b = concat(a.as_str(), ":\n      version: \"");
            let c = concat(b.as_str(), version.as_str());
            let d = concat(c.as_str(), "\"\n      store: \"");
            let e = concat(d.as_str(), store);
            let entry = concat(e.as_str(), "\"");
            let ghost before = lock_pkgs@;
            lock_pkgs.push(entry);
            proof {
                lemma_views_push(before, lock_pkgs@.last());
            }
            if contains_string(explicit, name) {
                let ghost before_y = yaml_pkgs@;
                yaml_pkgs.push(concat("  - ", name));
                proof {
                    lemma_views_push(before_y, yaml_pkgs@.last());
                }
            }
        }
        k += 1;
    }
    proof {
        assert(ps.take(k as int) =~= ps);
    }
    let mut yaml = String::new();
    crate::text::push_str(&mut yaml, "# ws packages \u{2014} managed by 'ws nix'\npackages:\n");
    crate::text::push_str(&mut yaml, join_strings(&yaml_pkgs, "\n").as_str());
    crate::text::push_str(&mut yaml, "\n");
    let mut lock = String::new();
    crate::text::push_str(&mut lock, "# ws lockfile \u{2014} auto-generated, commit this\n");
    let ghost after_head = lock@;
    match revision {
        Some(rev) => {
            crate::text::push_str(&mut lock, "nixpkgs_revision: \"");
            crate::text::push_str(&mut lock, rev);
            crate::text::push_str(&mut lock, "\"\n");
        },
        None => {},
    }
    crate::text::push_str(&mut lock, "packages:\n");
    crate::text::push_str(&mut lock, join_strings(&lock_pkgs, "\n").as_str());
    crate::text::push_str(&mut lock, "\n");
    proof {
        assert(Seq::<char>::empty() + "# ws packages \u{2014} managed by 'ws nix'\npackages:\n"@
            =~= "# ws packages \u{2014} managed by 'ws nix'\npackages:\n"@);
        assert(Seq::<char>::empty() + "# ws lockfile \u{2014} auto-generated, commit this\n"@
            =~= "# ws lockfile \u{2014} auto-generated, commit this\n"@);
        match revision {
            Some(rev) => {},
            None => {
                assert(after_head + Seq::<char>::empty() =~= after_head);
            },
        }
        assert(yaml@ =~= yaml_text(ps, views(explicit@)));
        assert(lock@ =~= lock_text(
            ps,
            match revision {
                Some(x) => Some(x@),
                None => None,
            },
        ));
    }
    (yaml, lock)
}

/// The nixpkgs revision that `nix flake metadata nixpkgs --json` reports:
/// `locked.rev`.
pub open spec fn revision_of(meta: Json) -> Result<Seq<char>, Seq<char>> {
    match js_get(meta, "locked"@) {
        Some(locked) => match js_str(js_get(locked, "rev"@)) {
            Some(r) => Ok(r),
            None => Err("revision not found"@),
        },
        None => Err("revision not found"@),
    }
}

/// Reads the nixpkgs revision out of the flake metadata.
pub fn nixpkgs_revision(meta: &JsonValue) -> (r: Result<String, String>)
    ensures
        match r {
            Ok(x) => revision_of(jv(*meta)) == Ok::<Seq<char>, Seq<char>>(x@),
            Err(e) => revision_of(jv(*meta)) == Err::<Seq<char>, Seq<char>>(e@),
        },
{
    match meta.get("locked") {
        Some(locked) => match get_str(locked, "rev") {
            Some(r) => Ok(r.to_owned()),
            None => Err("revision not found".to_owned()),
        },
        None => Err("revision not found".to_owned()),
    }
}

/// `PATH` with `dir` in front, unless it already mentions `dir`.
pub fn prepend_path(current: &str, dir: &str) -> (r: Option<String>)
    ensures
        contains_seq(current@, dir@) ==> r is None,
        !contains_seq(current@, dir@) ==> (r matches Some(p) && p@ == dir@ + ":"@ + current@),
{
    if str_contains(current, dir) {
        None
    } else {
        let a = concat(dir, ":");
        Some(concat(a.as_str(), current))
    }
}

/// Where a nix binary is looked for, in order.
pub open spec fn nix_locations() -> Seq<Seq<char>> {
    seq![
        "/nix/var/nix/profiles/default/bin/nix"@,
        "/usr/bin/nix"@,
        "/usr/local/bin/nix"@,
    ]
}

/// Where a nix binary is looked for, in order.
pub fn nix_candidates() -> (r: Vec<&'static str>)
    ensures
        crate::lsp::server::strs(r@) == nix_locations(),
{
    let r = vec!["/nix/var/nix/profiles/default/bin/nix", "/usr/bin/nix", "/usr/local/bin/nix"];
    assert(crate::lsp::server::strs(r@) =~= nix_locations());
    r
}

/// The nix binary to use: the first candidate that exists (`found[i]`
/// tells whether candidate `i` does).
pub fn find_nix(found: &Vec<bool>) -> (r: Option<String>)
    ensures
        match r {
            Some(p) => exists|i: int|
                0 <= i < found@.len() && i < 3 && found@[i] && p@ == nix_locations()[i] && forall|
                    k: int,
                | 0 <= k < i ==> !found@[k],
            None => forall|i: int| 0 <= i < found@.len() && i < 3 ==> !found@[i],
        },
{
    let c = nix_candidates();
    assert(crate::lsp::server::strs(c@).len() == c@.len());
    let mut i: usize = 0;
    while i < c.len() && i < found.len()
        invariant
            i <= 3,
            crate::lsp::server::strs(c@) == nix_locations(),
            c@.len() == 3,
            forall|k: int| 0 <= k < i && k < found@.len() ==> !found@[k],
        decreases 3 - i,
    {
        if found[i] {
            assert(c@[i as int]@ == nix_locations()[i as int]);
            return Some(c[i].to_owned());
        }
        i += 1;
    }
    None
}


/// A `ws.lock` written with a nixpkgs revision pins later installs to it:
/// reading the flake back from the written text gives that revision's
/// flake (for a revision on one line).
pub proof fn law_lock_pins_flake(pkgs: Seq<(Seq<char>, Seq<char>)>, rev: Seq<char>)
    requires
        rev.len() > 0,
        forall|k: int| 0 <= k < rev.len() ==> rev[k] != '\n',
    ensures
        flake_for(Some(lock_text(pkgs, Some(rev)))) == "github:NixOS/nixpkgs/"@ + rev,
{
    reveal_strlit("# ws lockfile \u{2014} auto-generated, commit this\n");
    reveal_strlit("# ws lockfile \u{2014} auto-generated, commit this");
    reveal_strlit("nixpkgs_revision: \"");
    reveal_strlit("\"\n");
    reveal_strlit("\"");
    let head = "# ws lockfile \u{2014} auto-generated, commit this"@;
    let pre = "nixpkgs_revision: \""@;
    let quote = "\""@;
    let nl = seq!['\n'];
    let line = pre + rev + quote;
    let rest = "packages:\n"@ + joined(lock_entries(pkgs), "\n"@) + "\n"@;
    let text = lock_text(pkgs, Some(rev));
    assert("# ws lockfile \u{2014} auto-generated, commit this\n"@ =~= head + nl);
    assert("\"\n"@ =~= quote + nl);
    assert(text =~= head + nl + (line + nl + rest));
    assert forall|k: int| 0 <= k < head.len() implies head[k] != '\n' by {}
    assert forall|k: int| 0 <= k < line.len() implies line[k] != '\n' by {
        if k >= pre.len() && k < pre.len() + rev.len() {
            assert(line[k] == rev[k - pre.len()]);
        }
    }
    crate::text::lemma_lines_split(head, line + nl + rest);
    crate::text::lemma_lines_split(line, rest);
    let ls = lines(text);
    assert(ls[0] == crate::text::strip_cr(head));
    assert(ls[1] == crate::text::strip_cr(line));
    assert(crate::text::strip_cr(head) == head);
    assert(crate::text::strip_cr(line) == line);
    assert(trim(head) == head) by {
        assert(crate::text::trim_start(head) == head);
        assert(crate::text::trim_end(head) == head);
    }
    assert(trim(line) == line) by {
        assert(crate::text::trim_start(line) == line);
        assert(crate::text::trim_end(line) == line);
    }
    assert(strip_prefix(head, pre) is None) by {
        if head.subrange(0, pre.len() as int) == pre {
            assert(head.subrange(0, pre.len() as int)[0] == head[0]);
        }
    }
    assert(line.subrange(0, pre.len() as int) =~= pre);
    assert(line.subrange(pre.len() as int, line.len() as int) =~= rev + quote);
    let r1 = rev + quote;
    assert(r1.subrange(r1.len() - 1, r1.len() as int) =~= quote);
    assert(r1.subrange(0, r1.len() - 1) =~= rev);
    assert(pinned_revision(ls, 1) == Some(rev));
    assert(pinned_revision(ls, 0) == Some(rev));
}

} // verus!
