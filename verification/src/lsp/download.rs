//! Getting a language server's binary: from `PATH`, from the download
//! directory, or by installing it.
use vstd::prelude::*;
use crate::json::{get_str, js_array, js_get, js_str, jv, jv_items, lemma_jv_items, Json, JsonValue};
use crate::text::{
    concat, contains_seq, has_suffix, push_str, str_contains, str_ends_with, str_eq, trim, trim_str,
};

verus! {

/// Where a language server's binary comes from.
pub enum LspInstall {
    /// Download from GitHub releases (e.g. terraform-ls, rust-analyzer).
    GitHubRelease { repo: &'static str, name: &'static str },
    /// Install via npm (e.g. typescript-language-server).
    Npm { package: &'static str, binary: &'static str },
    /// Install via cargo (e.g. rust-analyzer, taplo).
    Cargo { crate_name: &'static str, binary: &'static str },
    /// Expect the binary to already be on PATH.
    System { binary: &'static str },
}

/// The name of the binary that an install provides.
pub open spec fn binary_of(i: LspInstall) -> Seq<char> {
    match i {
        LspInstall::GitHubRelease { name, .. } => name@,
        LspInstall::Npm { binary, .. } => binary@,
        LspInstall::Cargo { binary, .. } => binary@,
        LspInstall::System { binary } => binary@,
    }
}

impl LspInstall {
    /// The name of the binary that this install provides.
    pub fn binary_name(&self) -> (r: &str)
        ensures
            r@ == binary_of(*self),
    {
        match self {
            LspInstall::GitHubRelease { name, .. } => name,
            LspInstall::Npm { binary, .. } => binary,
            LspInstall::Cargo { binary, .. } => binary,
            LspInstall::System { binary } => binary,
        }
    }
}

/// What `which` answers, read: the trimmed path if it succeeded, else
/// `"<name> not found"`.
pub open spec fn which_answer(success: bool, stdout: Seq<char>, name: Seq<char>) -> Result<
    Seq<char>,
    Seq<char>,
> {
    if success {
        Ok(trim(stdout))
    } else {
        Err(name + " not found"@)
    }
}

/// Reads what `which <name>` answered.
pub fn which_result(success: bool, stdout: &str, name: &str) -> (r: Result<String, String>)
    ensures
        match r {
            Ok(p) => which_answer(success, stdout@, name@) == Ok::<Seq<char>, Seq<char>>(p@),
            Err(e) => which_answer(success, stdout@, name@) == Err::<Seq<char>, Seq<char>>(e@),
        },
{
    if success {
        Ok(trim_str(stdout))
    } else {
        Err(concat(name, " not found"))
    }
}

/// Where `ensure` stands.
pub enum EnsureStage {
    /// Nothing done yet.
    Start,
    /// Waiting for `which`.
    LookedOnPath,
    /// Waiting to hear whether the download directory holds the binary.
    LookedInCache,
    /// Waiting for the install to finish.
    Installing,
    /// Waiting to hear whether the install left the binary in place.
    LookedAfterInstall,
    /// Finished.
    Done,
}

/// What the caller reports to `ensure`.
pub enum EnsureEvent {
    /// Begin.
    Begin,
    /// What `which` answered (see `which_result`).
    Which(Result<String, String>),
    /// The binary's path in the download directory, if it is there.
    Cached(Option<String>),
    /// How the install went.
    Installed(Result<(), String>),
}

/// What `ensure` asks the caller to do next.
pub enum EnsureAction {
    /// Look for the binary on `PATH` with `which`.
    Which(String),
    /// Look for the binary in the download directory.
    CheckCache(String),
    /// Install the binary as the `LspInstall` says.
    Install,
    /// Stop with this path to the binary, or this error.
    Finish(Result<String, String>),
}

/// The events that fit each stage.
pub open spec fn event_fits(stage: EnsureStage, event: EnsureEvent) -> bool {
    match stage {
        EnsureStage::Start => event is Begin,
        EnsureStage::LookedOnPath => event is Which,
        EnsureStage::LookedInCache => event is Cached,
        EnsureStage::Installing => event is Installed,
        EnsureStage::LookedAfterInstall => event is Cached,
        EnsureStage::Done => false,
    }
}

/// The view of a finished answer.
pub open spec fn answer_view(r: Result<String, String>) -> Result<Seq<char>, Seq<char>> {
    match r {
        Ok(p) => Ok(p@),
        Err(e) => Err(e@),
    }
}

/// The next stage and action of `ensure`, as plain values.
pub open spec fn ensure_step(i: LspInstall, stage: EnsureStage, event: EnsureEvent) -> (
    EnsureStage,
    Option<Result<Seq<char>, Seq<char>>>,
) {
    match (stage, event) {
        (EnsureStage::Start, _) => (EnsureStage::LookedOnPath, None),
        (EnsureStage::LookedOnPath, EnsureEvent::Which(Ok(p))) => (EnsureStage::Done, Some(Ok(p@))),
        (EnsureStage::LookedOnPath, _) => (EnsureStage::LookedInCache, None),
        (EnsureStage::LookedInCache, EnsureEvent::Cached(Some(p))) => (
            EnsureStage::Done,
            Some(Ok(p@)),
        ),
        (EnsureStage::LookedInCache, _) => if i is System {
            (
                EnsureStage::Done,
                Some(Err(binary_of(i) + " not found on PATH. Please install it manually."@)),
            )
        } else {
            (EnsureStage::Installing, None)
        },
        (EnsureStage::Installing, EnsureEvent::Installed(Err(e))) => (
            EnsureStage::Done,
            Some(Err(e@)),
        ),
        (EnsureStage::Installing, _) => (EnsureStage::LookedAfterInstall, None),
        (EnsureStage::LookedAfterInstall, EnsureEvent::Cached(Some(p))) => (
            EnsureStage::Done,
            Some(Ok(p@)),
        ),
        (EnsureStage::LookedAfterInstall, _) => (
            EnsureStage::Done,
            Some(Err("failed to find "@ + binary_of(i) + " after installation"@)),
        ),
        (EnsureStage::Done, _) => (EnsureStage::Done, None),
    }
}

/// One step of making sure a server's binary is available: take it from
/// `PATH`, else from the download directory, else install it and take it
/// from the download directory. A binary expected on `PATH` is never
/// installed.
pub fn ensure(install: &LspInstall, stage: EnsureStage, event: EnsureEvent) -> (r: (
    EnsureStage,
    EnsureAction,
))
    requires
        event_fits(stage, event),
    ensures
        r.0 == ensure_step(*install, stage, event).0,
        match ensure_step(*install, stage, event).1 {
            Some(answer) => r.1 matches EnsureAction::Finish(x) && answer_view(x) == answer,
            None => match r.0 {
                EnsureStage::LookedOnPath => r.1 matches EnsureAction::Which(b) && b@ == binary_of(
                    *install,
                ),
                EnsureStage::LookedInCache => r.1 matches EnsureAction::CheckCache(b) && b@
                    == binary_of(*install),
                EnsureStage::LookedAfterInstall => r.1 matches EnsureAction::CheckCache(b) && b@
                    == binary_of(*install),
                EnsureStage::Installing => r.1 is Install,
                _ => true,
            },
        },
{
    let binary = install.binary_name();
    match stage {
        EnsureStage::Start => (EnsureStage::LookedOnPath, EnsureAction::Which(binary.to_owned())),
        EnsureStage::LookedOnPath => match event {
            EnsureEvent::Which(Ok(p)) => (EnsureStage::Done, EnsureAction::Finish(Ok(p))),
            _ => (EnsureStage::LookedInCache, EnsureAction::CheckCache(binary.to_owned())),
        },
        EnsureStage::LookedInCache => match event {
            EnsureEvent::Cached(Some(p)) => (EnsureStage::Done, EnsureAction::Finish(Ok(p))),
            _ => match install {
                LspInstall::System { .. } => (
                    EnsureStage::Done,
                    EnsureAction::Finish(
                        Err(concat(binary, " not found on PATH. Please install it manually.")),
                    ),
                ),
                _ => (EnsureStage::Installing, EnsureAction::Install),
            },
        },
        EnsureStage::Installing => match event {
            EnsureEvent::Installed(Err(e)) => (EnsureStage::Done, EnsureAction::Finish(Err(e))),
            _ => (EnsureStage::LookedAfterInstall, EnsureAction::CheckCache(binary.to_owned())),
        },
        EnsureStage::LookedAfterInstall => match event {
            EnsureEvent::Cached(Some(p)) => (EnsureStage::Done, EnsureAction::Finish(Ok(p))),
            _ => {
                let m = concat("failed to find ", binary);
                (
                    EnsureStage::Done,
                    EnsureAction::Finish(Err(concat(m.as_str(), " after installation"))),
                )
            },
        },
        EnsureStage::Done => (EnsureStage::Done, EnsureAction::Finish(Err(String::new()))),
    }
}

/// The program and arguments that install a binary with npm or cargo into
/// the directory `target`; other installs run no such command.
pub open spec fn install_args(i: LspInstall, target: Seq<char>) -> Option<(Seq<char>, Seq<Seq<char>>)> {
    match i {
        LspInstall::Npm { package, .. } => Some(
            ("npm"@, seq!["install"@, "-g"@, "--prefix"@, target, package@]),
        ),
        LspInstall::Cargo { crate_name, .. } => Some(
            ("cargo"@, seq!["install"@, "--root"@, target, crate_name@]),
        ),
        _ => None,
    }
}

/// The program and arguments that install a binary with npm or cargo into
/// the directory `target`.
pub fn install_command(install: &LspInstall, target: &str) -> (r: Option<(String, Vec<String>)>)
    ensures
        match r {
            Some((p, args)) => install_args(*install, target@) == Some(
                (p@, args@.map_values(|a: String| a@)),
            ),
            None => install_args(*install, target@) is None,
        },
{
    match install {
        LspInstall::Npm { package, .. } => {
            let args = vec![
                "install".to_owned(),
                "-g".to_owned(),
                "--prefix".to_owned(),
                target.to_owned(),
                (*package).to_owned(),
            ];
            assert(args@.map_values(|a: String| a@) =~= seq![
                "install"@,
                "-g"@,
                "--prefix"@,
                target@,
                package@,
            ]);
            Some(("npm".to_owned(), args))
        },
        LspInstall::Cargo { crate_name, .. } => {
            let args = vec![
                "install".to_owned(),
                "--root".to_owned(),
                target.to_owned(),
                (*crate_name).to_owned(),
            ];
            assert(args@.map_values(|a: String| a@) =~= seq![
                "install"@,
                "--root"@,
                target@,
                crate_name@,
            ]);
            Some(("cargo".to_owned(), args))
        },
        _ => None,
    }
}

/// The names GitHub releases use for an OS and an architecture.
pub open spec fn github_names(os: Seq<char>, arch: Seq<char>) -> (Seq<char>, Seq<char>) {
    (
        if os == "macos"@ {
            "darwin"@
        } else {
            os
        },
        if arch == "x86_64"@ {
            "amd64"@
        } else if arch == "aarch64"@ {
            "arm64"@
        } else {
            arch
        },
    )
}

/// The names GitHub releases use for Rust's OS and architecture names:
/// `(os, arch)`.
pub fn github_platform(os: &str, arch: &str) -> (r: (String, String))
    ensures
        (r.0@, r.1@) == github_names(os@, arch@),
{
    let gh_os = if str_eq(os, "macos") {
        "darwin".to_owned()
    } else {
        os.to_owned()
    };
    let gh_arch = if str_eq(arch, "x86_64") {
        "amd64".to_owned()
    } else if str_eq(arch, "aarch64") {
        "arm64".to_owned()
    } else {
        arch.to_owned()
    };
    (gh_os, gh_arch)
}

/// What std's `str::to_lowercase` returns.
pub uninterp spec fn lowercase(s: Seq<char>) -> Seq<char>;

/// Calls std's `str::to_lowercase`. Claimed: the result is `lowercase` of
/// the argument, which depends on the argument alone.
#[verifier::external_body]
fn to_lowercase(s: &str) -> (r: String)
    ensures
        r@ == lowercase(s@),
{
    s.to_lowercase()
}

/// A release asset is the one for this platform and binary when its name,
/// lower-cased, mentions the architecture, the OS and the binary.
pub open spec fn asset_fits(name: Seq<char>, os: Seq<char>, arch: Seq<char>, binary: Seq<char>) -> bool {
    let lower = lowercase(name);
    contains_seq(lower, arch) && contains_seq(lower, os) && contains_seq(lower, binary)
}

/// The first of the assets `names` that fits the platform and binary.
pub fn pick_asset(names: &Vec<String>, os: &str, arch: &str, binary: &str) -> (r: Option<usize>)
    ensures
        match r {
            Some(i) => i < names@.len() && asset_fits(names@[i as int]@, os@, arch@, binary@)
                && forall|k: int|
                0 <= k < i ==> !asset_fits(#[trigger] names@[k]@, os@, arch@, binary@),
            None => forall|k: int|
                0 <= k < names@.len() ==> !asset_fits(#[trigger] names@[k]@, os@, arch@, binary@),
        },
{
    let mut i: usize = 0;
    while i < names.len()
        invariant
            i <= names@.len(),
            forall|k: int| 0 <= k < i ==> !asset_fits(#[trigger] names@[k]@, os@, arch@, binary@),
        decreases names@.len() - i,
    {
        let lower = to_lowercase(names[i].as_str());
        if str_contains(lower.as_str(), arch) && str_contains(lower.as_str(), os) && str_contains(
            lower.as_str(),
            binary,
        ) {
            return Some(i);
        }
        i += 1;
    }
    None
}

/// The kind of archive a download URL names: `"zip"` or `"tar.gz"`.
pub open spec fn archive_kind(url: Seq<char>) -> Seq<char> {
    if has_suffix(url, ".zip"@) {
        "zip"@
    } else {
        "tar.gz"@
    }
}

/// The kind of archive a download URL names: `"zip"` or `"tar.gz"`.
pub fn archive_ext(url: &str) -> (r: &'static str)
    ensures
        r@ == archive_kind(url@),
{
    if str_ends_with(url, ".zip") {
        "zip"
    } else {
        "tar.gz"
    }
}

/// An extracted file is the binary when its name mentions the binary and
/// it is not an archive.
pub open spec fn extracted_binary(file_name: Seq<char>, name: Seq<char>) -> bool {
    contains_seq(file_name, name) && !has_suffix(file_name, ".tar.gz"@) && !has_suffix(
        file_name,
        ".zip"@,
    )
}

/// Whether an extracted file named `file_name` is the binary `name`.
pub fn is_extracted_binary(file_name: &str, name: &str) -> (b: bool)
    ensures
        b == extracted_binary(file_name@, name@),
{
    str_contains(file_name, name) && !str_ends_with(file_name, ".tar.gz") && !str_ends_with(
        file_name,
        ".zip",
    )
}

/// The name of a release asset, or empty when it has none.
pub open spec fn asset_name(a: Json) -> Seq<char> {
    match js_str(js_get(a, "name"@)) {
        Some(n) => n,
        None => seq![],
    }
}

/// The first of the names from `i` on that fits the platform and binary.
pub open spec fn first_fit(names: Seq<Seq<char>>, os: Seq<char>, arch: Seq<char>, binary: Seq<char>, i: int) -> Option<int>
    decreases names.len() - i,
{
    if i < 0 || i >= names.len() {
        None
    } else if asset_fits(names[i], os, arch, binary) {
        Some(i)
    } else {
        first_fit(names, os, arch, binary, i + 1)
    }
}

/// With none of the names before `i` fitting from `k` on, the first fit
/// from `k` is the first fit from `i`.
proof fn lemma_first_fit(names: Seq<Seq<char>>, os: Seq<char>, arch: Seq<char>, binary: Seq<char>, k: int, i: int)
    requires
        0 <= k <= i,
        forall|j: int| k <= j < i && j < names.len() ==> !asset_fits(#[trigger] names[j], os, arch, binary),
    ensures
        first_fit(names, os, arch, binary, k) == first_fit(names, os, arch, binary, i),
    decreases i - k,
{
    if k < i && k < names.len() {
        lemma_first_fit(names, os, arch, binary, k + 1, i);
    } else if k < i {
        lemma_first_fit(names, os, arch, binary, k + 1, i);
    }
}

/// What a latest-release document gives for a download: the release tag
/// (`"latest"` when it has none) and the URL of the first asset that fits
/// the platform, or why there is none. `os` and `arch` are GitHub's names.
pub open spec fn release_download(release: Json, os: Seq<char>, arch: Seq<char>, repo: Seq<char>, binary: Seq<char>) -> Result<
    (Seq<char>, Seq<char>),
    Seq<char>,
> {
    let tag = match js_str(js_get(release, "tag_name"@)) {
        Some(t) => t,
        None => "latest"@,
    };
    match js_array(js_get(release, "assets"@)) {
        None => Err("no assets"@),
        Some(assets) => match first_fit(
            assets.map_values(|a: Json| asset_name(a)),
            os,
            arch,
            binary,
            0,
        ) {
            None => Err("no matching asset for "@ + os + "/"@ + arch + " in "@ + repo),
            Some(i) => match js_str(js_get(assets[i], "browser_download_url"@)) {
                None => Err("no download url"@),
                Some(url) => Ok((tag, url)),
            },
        },
    }
}

/// Reads a latest-release document: the release tag and the download URL
/// of the first asset that fits the platform.
pub fn release_asset(release: &JsonValue, os: &str, arch: &str, repo: &str, binary: &str) -> (r: Result<
    (String, String),
    String,
>)
    ensures
        match r {
            Ok((tag, url)) => release_download(jv(*release), os@, arch@, repo@, binary@) == Ok::<
                (Seq<char>, Seq<char>),
                Seq<char>,
            >((tag@, url@)),
            Err(e) => release_download(jv(*release), os@, arch@, repo@, binary@) == Err::<
                (Seq<char>, Seq<char>),
                Seq<char>,
            >(e@),
        },
{
    proof {
        reveal_strlit("latest");
    }
    let tag = match get_str(release, "tag_name") {
        Some(t) => t.to_owned(),
        None => "latest".to_owned(),
    };
    let assets = match release.get("assets") {
        Some(a) => match a.as_array() {
            Some(items) => items,
            None => {
                return Err("no assets".to_owned());
            },
        },
        None => {
            return Err("no assets".to_owned());
        },
    };
    proof {
        lemma_jv_items(assets@);
    }
    let ghost av = jv_items(assets@);
    let ghost nv = av.map_values(|a: Json| asset_name(a));
    let mut names: Vec<String> = Vec::new();
    let mut i: usize = 0;
    while i < assets.len()
        invariant
            i <= assets@.len(),
            av == jv_items(assets@),
            av.len() == assets@.len(),
            forall|j: int| 0 <= j < assets@.len() ==> #[trigger] av[j] == jv(assets@[j]),
            nv == av.map_values(|a: Json| asset_name(a)),
            names@.len() == i,
            forall|j: int| 0 <= j < i ==> #[trigger] names@[j]@ == nv[j],
        decreases assets@.len() - i,
    {
        let name = match get_str(&assets[i], "name") {
            Some(n) => n.to_owned(),
            None => String::new(),
        };
        names.push(name);
        i += 1;
    }
    match pick_asset(&names, os, arch, binary) {
        None => {
            proof {
                assert forall|j: int| 0 <= j < nv.len() implies !asset_fits(#[trigger] nv[j], os@, arch@, binary@) by {
                    assert(names@[j]@ == nv[j]);
                }
                lemma_first_fit(nv, os@, arch@, binary@, 0, nv.len() as int);
            }
            let mut e = concat("no matching asset for ", os);
            push_str(&mut e, "/");
            push_str(&mut e, arch);
            push_str(&mut e, " in ");
            push_str(&mut e, repo);
            Err(e)
        },
        Some(k) => {
            proof {
                assert forall|j: int| 0 <= j < k implies !asset_fits(#[trigger] nv[j], os@, arch@, binary@) by {
                    assert(names@[j]@ == nv[j]);
                }
                assert(names@[k as int]@ == nv[k as int]);
                lemma_first_fit(nv, os@, arch@, binary@, 0, k as int);
            }
            match get_str(&assets[k], "browser_download_url") {
                None => Err("no download url".to_owned()),
                Some(url) => Ok((tag, url.to_owned())),
            }
        },
    }
}

/// The command that unpacks a downloaded archive into `target`, and the
/// error reported when it fails: `unzip` for a zip, else `tar`.
pub open spec fn extract_plan(kind: Seq<char>, archive: Seq<char>, target: Seq<char>) -> (Seq<char>, Seq<Seq<char>>, Seq<char>) {
    if kind == "zip"@ {
        ("unzip"@, seq!["-o"@, archive, "-d"@, target], "unzip failed"@)
    } else {
        ("tar"@, seq!["xzf"@, archive, "-C"@, target], "tar extraction failed"@)
    }
}

/// The command that unpacks a downloaded archive of kind `kind` (as
/// `archive_ext` names it) into `target`: program, arguments, and the error
/// reported when it fails.
pub fn extract_command(kind: &str, archive: &str, target: &str) -> (r: (String, Vec<String>, String))
    ensures
        (r.0@, r.1@.map_values(|a: String| a@), r.2@) == extract_plan(kind@, archive@, target@),
{
    if str_eq(kind, "zip") {
        let args = vec!["-o".to_owned(), archive.to_owned(), "-d".to_owned(), target.to_owned()];
        assert(args@.map_values(|a: String| a@) =~= seq!["-o"@, archive@, "-d"@, target@]);
        ("unzip".to_owned(), args, "unzip failed".to_owned())
    } else {
        let args = vec!["xzf".to_owned(), archive.to_owned(), "-C".to_owned(), target.to_owned()];
        assert(args@.map_values(|a: String| a@) =~= seq!["xzf"@, archive@, "-C"@, target@]);
        ("tar".to_owned(), args, "tar extraction failed".to_owned())
    }
}

} // verus!
