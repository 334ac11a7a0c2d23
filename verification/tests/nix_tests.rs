use ws::json::JsonValue;
use ws::nix::{
    apply_entry, apply_summary, extract_version, find_nix, first_step, get_installed, install,
    install_auto, install_step, list, nix_candidates, nixpkgs_revision, package_parts,
    packages_to_apply, prepend_path, remove, render_workspace_files, resolve_flake, search, sync,
    version_extractable, yaml_packages, Attempt, InstallStep,
};

fn s(v: &str) -> JsonValue {
    JsonValue::Str(v.to_string())
}

fn o(fields: Vec<(&str, JsonValue)>) -> JsonValue {
    JsonValue::Object(fields.into_iter().map(|(k, v)| (k.to_string(), v)).collect())
}

fn ran(success: bool, stderr: &str) -> Attempt {
    Attempt::Ran { success, stderr: stderr.to_string() }
}

fn tried(step: InstallStep) -> String {
    match step {
        InstallStep::Try(a) => a,
        InstallStep::Finish(r) => panic!("finished early: {:?}", r),
    }
}

fn finished(step: InstallStep) -> Result<String, String> {
    match step {
        InstallStep::Try(a) => panic!("still trying {}", a),
        InstallStep::Finish(r) => r,
    }
}

#[test]
fn package_requests_split_at_the_first_at() {
    assert_eq!(package_parts("ripgrep"), ("ripgrep".to_string(), String::new()));
    assert_eq!(package_parts("nodejs@20.1"), ("nodejs".to_string(), "20.1".to_string()));
    assert_eq!(package_parts("a@b@c"), ("a".to_string(), "b@c".to_string()));
}

#[test]
fn install_plans_try_each_attribute_spelling() {
    let mut explicit = vec!["jq".to_string()];
    let plan = install(&mut explicit, "python@3.12", "nixpkgs");
    assert_eq!(plan.attrs, vec!["nixpkgs#python@3.12", "nixpkgs#python_3_12", "nixpkgs#python_312"]);
    assert_eq!(explicit, vec!["jq".to_string(), "python".to_string()]);
    let again = install(&mut explicit, "python", "nixpkgs");
    assert_eq!(again.attrs, vec!["nixpkgs#python"]);
    assert_eq!(explicit.len(), 2);

    assert_eq!(tried(first_step(&plan)), "nixpkgs#python@3.12");
    assert_eq!(tried(install_step(&plan, 0, ran(false, "no such attr"))), "nixpkgs#python_3_12");
    assert_eq!(
        finished(install_step(&plan, 2, ran(false, "nope"))),
        Err("no version python@3.12 found in nixpkgs".to_string())
    );
    assert_eq!(
        finished(install_step(&plan, 1, ran(true, "copying\ndone"))),
        Ok("installed python@3.12: done".to_string())
    );
}

#[test]
fn unversioned_installs_finish_on_the_first_attempt() {
    let plan = install_auto("gopls", "github:NixOS/nixpkgs/abc");
    assert_eq!(plan.attrs, vec!["github:NixOS/nixpkgs/abc#gopls"]);
    assert_eq!(
        finished(install_step(&plan, 0, ran(false, "  boom \n"))),
        Err("boom".to_string())
    );
    assert_eq!(
        finished(install_step(&plan, 0, ran(true, ""))),
        Ok("installed gopls: ".to_string())
    );
    assert_eq!(
        finished(install_step(&plan, 0, Attempt::NixMissing)),
        Err("Nix not found. Mount /nix from host.".to_string())
    );
    assert_eq!(
        finished(install_step(&plan, 0, Attempt::SpawnFailed("denied".to_string()))),
        Err("nix install: denied".to_string())
    );
}

#[test]
fn removal_answers() {
    assert_eq!(remove(ran(true, "")), Ok("removed".to_string()));
    assert_eq!(remove(ran(false, " gone \n")), Err("gone".to_string()));
    assert_eq!(remove(Attempt::NixMissing), Err("Nix not found. Mount /nix from host.".to_string()));
    assert_eq!(remove(Attempt::SpawnFailed("x".to_string())), Err("nix remove: x".to_string()));
}

#[test]
fn sync_answers() {
    assert_eq!(sync(Ok(())), Ok("ws.yaml + ws.lock updated".to_string()));
    assert_eq!(sync(Err("disk full".to_string())), Err("disk full".to_string()));
}

#[test]
fn search_output_loses_colour_codes() {
    let out = "\u{1b}[1mlegacyPackages.x86_64-linux.jq\u{1b}[0m (1.7)\n  JSON processor\n";
    assert_eq!(
        search(out),
        vec!["legacyPackages.x86_64-linux.jq (1.7)".to_string(), "  JSON processor".to_string()]
    );
}

#[test]
fn profile_elements_are_listed_with_versions() {
    let profile = o(vec![(
        "elements",
        o(vec![
            ("jq", o(vec![("storePaths", JsonValue::Array(vec![s("/nix/store/abc-jq-1.7.1")]))])),
            ("odd", o(vec![])),
        ]),
    )]);
    let installed = get_installed(&profile);
    assert_eq!(
        installed,
        vec![
            ("jq".to_string(), "/nix/store/abc-jq-1.7.1".to_string()),
            ("odd".to_string(), String::new())
        ]
    );
    assert_eq!(list(&profile), vec!["jq".to_string(), "odd".to_string()]);
    assert!(get_installed(&o(vec![])).is_empty());
}

#[test]
fn versions_come_after_the_second_dash() {
    assert_eq!(extract_version("/nix/store/abc-hello-2.12.1"), "2.12.1");
    assert_eq!(extract_version("/nix/store/abc-python3-3.12.0-env"), "3.12.0-env");
    assert_eq!(extract_version("nodash"), "");
    assert!(version_extractable("/nix/store/abc-hello-2.12.1"));
    assert!(!version_extractable("/nix/store/abc-hello"));
}

#[test]
fn flakes_follow_the_lock_file() {
    assert_eq!(resolve_flake(None), "nixpkgs");
    assert_eq!(
        resolve_flake(Some("# lock\nnixpkgs_revision: \"deadbeef\"\npackages:\n")),
        "github:NixOS/nixpkgs/deadbeef"
    );
    assert_eq!(resolve_flake(Some("nixpkgs_revision: \"\"\n")), "nixpkgs");
    assert_eq!(resolve_flake(Some("packages:\n")), "nixpkgs");
}

#[test]
fn yaml_lists_packages() {
    let yaml = "# ws packages\npackages:\n  - jq\n  - nodejs@20\n  -   \nother: 1\n";
    assert_eq!(yaml_packages(yaml), vec!["jq".to_string(), "nodejs@20".to_string()]);
    let todo = packages_to_apply(
        &vec!["jq".to_string(), "nodejs@20".to_string()],
        &vec!["jq".to_string()],
    );
    assert_eq!(todo, vec![("nodejs@20".to_string(), "nodejs".to_string())]);
    assert_eq!(apply_entry("nodejs", "installed nodejs: ok"), "  nodejs: installed nodejs: ok");
    assert_eq!(apply_summary(&vec![]), "all packages already installed");
    assert_eq!(apply_summary(&vec!["  a: x".to_string(), "  b: y".to_string()]), "installed:\n  a: x\n  b: y");
}

#[test]
fn workspace_files_list_explicit_packages_and_pin_all() {
    let installed = vec![
        ("nix".to_string(), "/nix/store/a-nix-2.20".to_string()),
        ("jq".to_string(), "/nix/store/b-jq-1.7".to_string()),
        ("gopls".to_string(), "/nix/store/c-gopls-0.15".to_string()),
    ];
    let (yaml, lock) = render_workspace_files(&installed, &vec!["jq".to_string()], Some("rev1"));
    assert_eq!(yaml, "# ws packages \u{2014} managed by 'ws nix'\npackages:\n  - jq\n");
    assert_eq!(
        lock,
        "# ws lockfile \u{2014} auto-generated, commit this\nnixpkgs_revision: \"rev1\"\npackages:\n  jq:\n      version: \"1.7\"\n      store: \"/nix/store/b-jq-1.7\"\n  gopls:\n      version: \"0.15\"\n      store: \"/nix/store/c-gopls-0.15\"\n"
    );
    let (_, bare) = render_workspace_files(&vec![], &vec![], None);
    assert_eq!(bare, "# ws lockfile \u{2014} auto-generated, commit this\npackages:\n\n");
}

#[test]
fn revision_comes_from_locked_rev() {
    let meta = o(vec![("locked", o(vec![("rev", s("abc123"))]))]);
    assert_eq!(nixpkgs_revision(&meta), Ok("abc123".to_string()));
    assert_eq!(nixpkgs_revision(&o(vec![])), Err("revision not found".to_string()));
}

#[test]
fn path_gets_the_profile_once() {
    assert_eq!(prepend_path("/usr/bin", "/p/bin"), Some("/p/bin:/usr/bin".to_string()));
    assert_eq!(prepend_path("/p/bin:/usr/bin", "/p/bin"), None);
}

#[test]
fn nix_is_looked_for_in_order() {
    assert_eq!(nix_candidates().len(), 3);
    assert_eq!(find_nix(&vec![false, true, true]), Some("/usr/bin/nix".to_string()));
    assert_eq!(find_nix(&vec![false, false, false]), None);
}

#[test]
fn applying_twice_installs_nothing_more() {
    let desired = vec!["jq".to_string(), "go@1.23".to_string()];
    let first = packages_to_apply(&desired, &vec![]);
    assert_eq!(first.len(), 2);
    let after: Vec<String> = first.iter().map(|(_, name)| name.clone()).collect();
    assert!(packages_to_apply(&desired, &after).is_empty());
}

#[test]
fn written_lock_pins_the_flake() {
    let installed = vec![("jq".to_string(), "/nix/store/b-jq-1.7".to_string())];
    let (_, lock) = render_workspace_files(&installed, &vec![], Some("abc123"));
    assert_eq!(resolve_flake(Some(&lock)), "github:NixOS/nixpkgs/abc123");
    let (_, unpinned) = render_workspace_files(&installed, &vec![], None);
    assert_eq!(resolve_flake(Some(&unpinned)), "nixpkgs");
}
