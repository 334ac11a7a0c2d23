//! The language servers this workspace knows, and which files each serves.
use vstd::prelude::*;
use crate::text::str_eq;

verus! {

/// How the root directory of a server's session is chosen for a file.
#[derive(Clone, Copy, Debug, PartialEq, Eq, Structural)]
pub enum RootMode {
    /// One session for the whole workspace.
    Workspace,
    /// The nearest directory holding a project marker, else the workspace.
    Project,
    /// The nearest directory holding a project marker, else the file's directory.
    ProjectOrDir,
}

/// A language server: how it is started and which files it serves.
#[derive(Clone, Copy)]
pub struct LspServer {
    pub id: &'static str,
    pub language_id: &'static str,
    pub extensions: &'static [&'static str],
    pub binary: &'static str,
    pub args: &'static [&'static str],
    pub needs_lockfile: bool,
    pub nix_packages: &'static [&'static str],
    pub root_mode: RootMode,
}

/// A server as plain values.
pub struct ServerView {
    pub id: Seq<char>,
    pub language_id: Seq<char>,
    pub extensions: Seq<Seq<char>>,
    pub binary: Seq<char>,
    pub args: Seq<Seq<char>>,
    pub needs_lockfile: bool,
    pub nix_packages: Seq<Seq<char>>,
    pub root_mode: RootMode,
}

/// The views of a sequence of string slices.
pub open spec fn strs(v: Seq<&str>) -> Seq<Seq<char>> {
    v.map_values(|s: &str| s@)
}

impl View for LspServer {
    type V = ServerView;

    open spec fn view(&self) -> ServerView {
        ServerView {
            id: self.id@,
            language_id: self.language_id@,
            extensions: strs(self.extensions@),
            binary: self.binary@,
            args: strs(self.args@),
            needs_lockfile: self.needs_lockfile,
            nix_packages: strs(self.nix_packages@),
            root_mode: self.root_mode,
        }
    }
}

/// The views of a sequence of servers.
pub open spec fn server_views(v: Seq<LspServer>) -> Seq<ServerView> {
    v.map_values(|s: LspServer| s@)
}

/// The known servers, in order of preference.
pub open spec fn server_table() -> Seq<ServerView> {
    seq![
        ServerView {
            id: "typescript"@,
            language_id: "typescript"@,
            extensions: seq![".ts"@, ".tsx"@, ".js"@, ".jsx"@, ".mjs"@, ".cjs"@, ".mts"@, ".cts"@],
            binary: "typescript-language-server"@,
            args: seq!["--stdio"@],
            needs_lockfile: true,
            nix_packages: seq!["nodejs"@],
            root_mode: RootMode::Project,
        },
        ServerView {
            id: "rust"@,
            language_id: "rust"@,
            extensions: seq![".rs"@],
            binary: "rust-analyzer"@,
            args: seq![],
            needs_lockfile: true,
            nix_packages: seq!["cargo"@, "rustc"@],
            root_mode: RootMode::Project,
        },
        ServerView {
            id: "gopls"@,
            language_id: "go"@,
            extensions: seq![".go"@],
            binary: "gopls"@,
            args: seq![],
            needs_lockfile: true,
            nix_packages: seq!["go"@],
            root_mode: RootMode::ProjectOrDir,
        },
        ServerView {
            id: "pyright"@,
            language_id: "python"@,
            extensions: seq![".py"@, ".pyi"@],
            binary: "pyright-langserver"@,
            args: seq!["--stdio"@],
            needs_lockfile: true,
            nix_packages: seq!["python3"@],
            root_mode: RootMode::ProjectOrDir,
        },
        ServerView {
            id: "clangd"@,
            language_id: "cpp"@,
            extensions: seq![".c"@, ".cpp"@, ".cc"@, ".cxx"@, ".h"@, ".hpp"@, ".hh"@, ".hxx"@],
            binary: "clangd"@,
            args: seq![],
            needs_lockfile: true,
            nix_packages: seq!["clang-tools"@],
            root_mode: RootMode::ProjectOrDir,
        },
        ServerView {
            id: "lua-ls"@,
            language_id: "lua"@,
            extensions: seq![".lua"@],
            binary: "lua-language-server"@,
            args: seq![],
            needs_lockfile: false,
            nix_packages: seq![],
            root_mode: RootMode::Workspace,
        },
        ServerView {
            id: "bashls"@,
            language_id: "shellscript"@,
            extensions: seq![".sh"@, ".bash"@, ".zsh"@, ".ksh"@],
            binary: "bash-language-server"@,
            args: seq!["start"@],
            needs_lockfile: false,
            nix_packages: seq![],
            root_mode: RootMode::Workspace,
        },
        ServerView {
            id: "yaml-ls"@,
            language_id: "yaml"@,
            extensions: seq![".yaml"@, ".yml"@],
            binary: "yaml-language-server"@,
            args: seq!["--stdio"@],
            needs_lockfile: false,
            nix_packages: seq![],
            root_mode: RootMode::Workspace,
        },
        ServerView {
            id: "json-ls"@,
            language_id: "json"@,
            extensions: seq![".json"@, ".jsonc"@],
            binary: "json-languageserver"@,
            args: seq!["--stdio"@],
            needs_lockfile: false,
            nix_packages: seq![],
            root_mode: RootMode::Workspace,
        },
    ]
}

/// The known servers, in order of preference.
pub fn servers() -> (v: Vec<LspServer>)
    ensures
        server_views(v@) == server_table(),
{
    let v = vec![
        LspServer {
            id: "typescript",
            language_id: "typescript",
            extensions: &[".ts", ".tsx", ".js", ".jsx", ".mjs", ".cjs", ".mts", ".cts"],
            binary: "typescript-language-server",
            args: &["--stdio"],
            needs_lockfile: true,
            nix_packages: &["nodejs"],
            root_mode: RootMode::Project,
        },
        LspServer {
            id: "rust",
            language_id: "rust",
            extensions: &[".rs"],
            binary: "rust-analyzer",
            args: &[],
            needs_lockfile: true,
            nix_packages: &["cargo", "rustc"],
            root_mode: RootMode::Project,
        },
        LspServer {
            id: "gopls",
            language_id: "go",
            extensions: &[".go"],
            binary: "gopls",
            args: &[],
            needs_lockfile: true,
            nix_packages: &["go"],
            root_mode: RootMode::ProjectOrDir,
        },
        LspServer {
            id: "pyright",
            language_id: "python",
            extensions: &[".py", ".pyi"],
            binary: "pyright-langserver",
            args: &["--stdio"],
            needs_lockfile: true,
            nix_packages: &["python3"],
            root_mode: RootMode::ProjectOrDir,
        },
        LspServer {
            id: "clangd",
            language_id: "cpp",
            extensions: &[".c", ".cpp", ".cc", ".cxx", ".h", ".hpp", ".hh", ".hxx"],
            binary: "clangd",
            args: &[],
            needs_lockfile: true,
            nix_packages: &["clang-tools"],
            root_mode: RootMode::ProjectOrDir,
        },
        LspServer {
            id: "lua-ls",
            language_id: "lua",
            extensions: &[".lua"],
            binary: "lua-language-server",
            args: &[],
            needs_lockfile: false,
            nix_packages: &[],
            root_mode: RootMode::Workspace,
        },
        LspServer {
            id: "bashls",
            language_id: "shellscript",
            extensions: &[".sh", ".bash", ".zsh", ".ksh"],
            binary: "bash-language-server",
            args: &["start"],
            needs_lockfile: false,
            nix_packages: &[],
            root_mode: RootMode::Workspace,
        },
        LspServer {
            id: "yaml-ls",
            language_id: "yaml",
            extensions: &[".yaml", ".yml"],
            binary: "yaml-language-server",
            args: &["--stdio"],
            needs_lockfile: false,
            nix_packages: &[],
            root_mode: RootMode::Workspace,
        },
        LspServer {
            id: "json-ls",
            language_id: "json",
            extensions: &[".json", ".jsonc"],
            binary: "json-languageserver",
            args: &["--stdio"],
            needs_lockfile: false,
            nix_packages: &[],
            root_mode: RootMode::Workspace,
        },
    ];
    proof {
        assert(server_views(v@) =~= server_table()) by {
            assert(strs(v@[0].extensions@) =~= server_table()[0].extensions);
            assert(strs(v@[0].args@) =~= server_table()[0].args);
            assert(strs(v@[0].nix_packages@) =~= server_table()[0].nix_packages);
            assert(strs(v@[1].extensions@) =~= server_table()[1].extensions);
            assert(strs(v@[1].args@) =~= server_table()[1].args);
            assert(strs(v@[1].nix_packages@) =~= server_table()[1].nix_packages);
            assert(strs(v@[2].extensions@) =~= server_table()[2].extensions);
            assert(strs(v@[2].args@) =~= server_table()[2].args);
            assert(strs(v@[2].nix_packages@) =~= server_table()[2].nix_packages);
            assert(strs(v@[3].extensions@) =~= server_table()[3].extensions);
            assert(strs(v@[3].args@) =~= server_table()[3].args);
            assert(strs(v@[3].nix_packages@) =~= server_table()[3].nix_packages);
            assert(strs(v@[4].extensions@) =~= server_table()[4].extensions);
            assert(strs(v@[4].args@) =~= server_table()[4].args);
            assert(strs(v@[4].nix_packages@) =~= server_table()[4].nix_packages);
            assert(strs(v@[5].extensions@) =~= server_table()[5].extensions);
            assert(strs(v@[5].args@) =~= server_table()[5].args);
            assert(strs(v@[5].nix_packages@) =~= server_table()[5].nix_packages);
            assert(strs(v@[6].extensions@) =~= server_table()[6].extensions);
            assert(strs(v@[6].args@) =~= server_table()[6].args);
            assert(strs(v@[6].nix_packages@) =~= server_table()[6].nix_packages);
            assert(strs(v@[7].extensions@) =~= server_table()[7].extensions);
            assert(strs(v@[7].args@) =~= server_table()[7].args);
            assert(strs(v@[7].nix_packages@) =~= server_table()[7].nix_packages);
            assert(strs(v@[8].extensions@) =~= server_table()[8].extensions);
            assert(strs(v@[8].args@) =~= server_table()[8].args);
            assert(strs(v@[8].nix_packages@) =~= server_table()[8].nix_packages);
        }
    }
    v
}

/// The servers of `t[i..]` that serve files with extension `ext`, in order.
pub open spec fn serving_from(t: Seq<ServerView>, ext: Seq<char>, i: int) -> Seq<ServerView>
    decreases t.len() - i,
{
    if i < 0 || i >= t.len() {
        seq![]
    } else if t[i].extensions.contains(ext) {
        seq![t[i]] + serving_from(t, ext, i + 1)
    } else {
        serving_from(t, ext, i + 1)
    }
}

/// The servers of table `t` that serve files with extension `ext`, in order.
pub open spec fn serving(t: Seq<ServerView>, ext: Seq<char>) -> Seq<ServerView> {
    serving_from(t, ext, 0)
}

/// Whether `ext` is one of `exts`.
fn has_extension(exts: &[&str], ext: &str) -> (b: bool)
    ensures
        b == strs(exts@).contains(ext@),
{
    let mut i: usize = 0;
    while i < exts.len()
        invariant
            i <= exts@.len(),
            forall|k: int| 0 <= k < i ==> exts@[k]@ != ext@,
        decreases exts@.len() - i,
    {
        if str_eq(exts[i], ext) {
            assert(strs(exts@)[i as int] == ext@);
            return true;
        }
        i += 1;
    }
    proof {
        if strs(exts@).contains(ext@) {
            let k = choose|k: int| 0 <= k < strs(exts@).len() && strs(exts@)[k] == ext@;
            assert(exts@[k]@ == ext@);
        }
    }
    false
}

/// The servers that serve files with extension `ext` (such as `".rs"`),
/// in order of preference.
pub fn for_extension(ext: &str) -> (v: Vec<LspServer>)
    ensures
        server_views(v@) == serving(server_table(), ext@),
{
    let table = servers();
    let mut out: Vec<LspServer> = Vec::new();
    let mut i: usize = table.len();
    // Built from the back so that each step puts one server in front.
    while i > 0
        invariant
            i <= table@.len(),
            server_views(table@) == server_table(),
            server_views(out@) == serving_from(server_table(), ext@, i as int),
        decreases i,
    {
        i -= 1;
        let s = table[i];
        if has_extension(s.extensions, ext) {
            let ghost old_out = out@;
            out.insert(0, s);
            proof {
                assert(server_views(out@) =~= seq![s@] + server_views(old_out));
            }
        }
        assert(server_table()[i as int] == s@);
    }
    out
}

} // verus!
