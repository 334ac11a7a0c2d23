//! The workspace tools: reading, editing and searching files, running
//! shell commands, and keeping background sessions.
use vstd::prelude::*;
use vstd::multiset::Multiset;
use vstd::string::StringSliceAdditionalSpecFns;
use crate::table::Table;
use crate::text::{
    chars_of, concat, contains_seq, decimal, decimal_string, lemma_views_push, line_bounds,
    lines, lines_of, parse_usize, parse_usize_range, replace_all, replace_str, split_once,
    str_contains, string_of_range, views, find_chars, lemma_find_from,
};

verus! {

/// One exact-text replacement.
#[derive(Debug)]
pub struct EditOp {
    pub old_text: String,
    pub new_text: String,
}

/// A file's contents.
#[derive(Debug)]
pub struct ReadResult {
    pub content: String,
    pub size: u64,
}

/// What a shell command printed and how it exited.
#[derive(Debug)]
pub struct BashResult {
    pub stdout: String,
    pub stderr: String,
    pub exit_code: i32,
}

/// How many edits were applied, and why the others were not.
#[derive(Debug)]
pub struct EditResult {
    pub applied: usize,
    pub errors: Vec<String>,
}

/// How many bytes were written.
#[derive(Debug)]
pub struct WriteResult {
    pub size: u64,
}

/// A line that matched a search.
#[derive(Debug)]
pub struct GrepMatch {
    pub path: String,
    pub line_number: usize,
    pub text: String,
}

/// The lines that matched a search.
#[derive(Debug)]
pub struct GrepResult {
    pub matches: Vec<GrepMatch>,
}

/// The files found.
#[derive(Debug)]
pub struct FindResult {
    pub files: Vec<String>,
}

/// An entry of a directory.
#[derive(Debug)]
pub struct LsEntry {
    pub name: String,
    pub is_dir: bool,
    pub size: u64,
}

/// The entries of a directory, by name.
#[derive(Debug)]
pub struct LsResult {
    pub entries: Vec<LsEntry>,
}

/// Why a tool failed.
#[derive(Debug)]
pub struct ToolError(pub String);

/// A background session that was started.
#[derive(Debug)]
pub struct SpawnResult {
    pub session_id: String,
    pub pid: u32,
}

/// What a background session printed so far.
#[derive(Debug)]
pub struct LogsResult {
    pub stdout: String,
    pub stderr: String,
    pub stdout_len: u64,
    pub stderr_len: u64,
    pub running: bool,
    pub exit_code: Option<i32>,
}

/// The state of a background session.
#[derive(Debug)]
pub struct StatusResult {
    pub session_id: String,
    pub pid: u32,
    pub command: String,
    pub running: bool,
    pub exit_code: Option<i32>,
}

/// What stopping a background session did.
#[derive(Debug)]
pub struct KillResult {
    pub killed: bool,
    pub message: String,
}

/// The number of bytes of a text in UTF-8.
pub open spec fn byte_len(s: Seq<char>) -> nat {
    vstd::utf8::encode_utf8(s).len()
}

/// An edit as plain values.
pub open spec fn edit_view(e: EditOp) -> (Seq<char>, Seq<char>) {
    (e.old_text@, e.new_text@)
}

/// The message for edit `i`.
pub open spec fn edit_error(i: nat, why: Seq<char>) -> Seq<char> {
    "edit["@ + decimal(i) + "]: "@ + why
}

/// Applying `edits[i..]` in turn to `text`, with `applied` applied and
/// `errors` refused so far: the text that results, how many were applied,
/// and why the others were not. An edit with an empty old text, or with an
/// old text that does not occur, is refused and changes nothing; any other
/// replaces every occurrence of its old text.
pub open spec fn edits_from(
    text: Seq<char>,
    edits: Seq<(Seq<char>, Seq<char>)>,
    i: int,
    applied: nat,
    errors: Seq<Seq<char>>,
) -> (Seq<char>, nat, Seq<Seq<char>>)
    decreases edits.len() - i,
{
    if i < 0 || i >= edits.len() {
        (text, applied, errors)
    } else {
        let (old_text, new_text) = edits[i];
        if old_text.len() == 0 {
            edits_from(text, edits, i + 1, applied, errors.push(edit_error(i as nat, "old_text is empty"@)))
        } else if !contains_seq(text, old_text) {
            edits_from(text, edits, i + 1, applied, errors.push(edit_error(i as nat, "old_text not found"@)))
        } else {
            edits_from(replace_all(text, old_text, new_text), edits, i + 1, applied + 1, errors)
        }
    }
}

/// Applying `edits` in turn to `text`.
pub open spec fn apply_all(text: Seq<char>, edits: Seq<(Seq<char>, Seq<char>)>) -> (
    Seq<char>,
    nat,
    Seq<Seq<char>>,
) {
    edits_from(text, edits, 0, 0, seq![])
}

/// The message for edit `i`.
fn edit_error_message(i: usize, why: &str) -> (r: String)
    ensures
        r@ == edit_error(i as nat, why@),
{
    let a = concat("edit[", decimal_string(i as u64).as_str());
    let b = concat(a.as_str(), "]: ");
    concat(b.as_str(), why)
}

/// Applies `edits` in turn to `content` (the logic of the edit tool): each
/// replaces every occurrence of its old text with its new text, or is
/// refused with a message naming its position.
pub fn apply_edits(content: &str, edits: &Vec<EditOp>) -> (r: (String, EditResult))
    ensures
        (r.0@, r.1.applied as nat, views(r.1.errors@)) == apply_all(
            content@,
            edits@.map_values(|e: EditOp| edit_view(e)),
        ),
{
    let ghost es = edits@.map_values(|e: EditOp| edit_view(e));
    let mut result = content.to_owned();
    let mut applied: usize = 0;
    let mut errors: Vec<String> = Vec::new();
    let mut i: usize = 0;
    assert(views(errors@) =~= Seq::<Seq<char>>::empty());
    while i < edits.len()
        invariant
            i <= edits@.len(),
            applied <= i,
            es == edits@.map_values(|e: EditOp| edit_view(e)),
            apply_all(content@, es) == edits_from(
                result@,
                es,
                i as int,
                applied as nat,
                views(errors@),
            ),
        decreases edits@.len() - i,
    {
        let e = &edits[i];
        assert(es[i as int] == (e.old_text@, e.new_text@));
        if e.old_text.as_str().is_empty() {
            let ghost before = errors@;
            errors.push(edit_error_message(i, "old_text is empty"));
            proof {
                lemma_views_push(before, errors@.last());
            }
        } else if !str_contains(result.as_str(), e.old_text.as_str()) {
            let ghost before = errors@;
            errors.push(edit_error_message(i, "old_text not found"));
            proof {
                lemma_views_push(before, errors@.last());
            }
        } else {
            result = replace_str(result.as_str(), e.old_text.as_str(), e.new_text.as_str());
            applied += 1;
        }
        i += 1;
    }
    (result, EditResult { applied, errors })
}

/// A line of `grep -rnH` output, read as `path:line:text`: the part before
/// the first `:` is the path, the part before the next `:` must be a line
/// number, and the rest is the text (empty when there is no second `:`).
pub open spec fn grep_line(line: Seq<char>) -> Option<(Seq<char>, nat, Seq<char>)> {
    match split_once(line, ':') {
        None => None,
        Some((path, rest)) => {
            let (num, text) = match split_once(rest, ':') {
                Some((n, t)) => (n, t),
                None => (rest, seq![]),
            };
            match parse_usize(num) {
                Some(n) => Some((path, n, text)),
                None => None,
            }
        },
    }
}

/// The matches that the lines `ls` describe, in order.
pub open spec fn grep_matches(ls: Seq<Seq<char>>) -> Seq<(Seq<char>, nat, Seq<char>)>
    decreases ls.len(),
{
    if ls.len() == 0 {
        seq![]
    } else {
        let rest = grep_matches(ls.drop_last());
        match grep_line(ls.last()) {
            Some(m) => rest.push(m),
            None => rest,
        }
    }
}

/// A match as plain values.
pub open spec fn match_view(m: GrepMatch) -> (Seq<char>, nat, Seq<char>) {
    (m.path@, m.line_number as nat, m.text@)
}

/// Reads one line of `grep -rnH` output.
fn parse_grep_line(line: &str) -> (r: Option<GrepMatch>)
    ensures
        match r {
            Some(m) => grep_line(line@) == Some(match_view(m)),
            None => grep_line(line@) is None,
        },
{
    let cs = chars_of(line);
    let colon: Vec<char> = vec![':'];
    assert(colon@ =~= seq![':']);
    let first = match find_chars(&cs, &colon, 0) {
        Some(i) => i,
        None => {
            return None;
        },
    };
    proof {
        lemma_find_from(cs@, colon@, 0);
    }
    let n = cs.len();
    assert(first < n);
    let ghost rest = cs@.subrange(first + 1, n as int);
    assert(split_once(line@, ':') == Some((cs@.subrange(0, first as int), rest)));
    let (num_lo, num_hi, text_lo) = match find_chars(&cs, &colon, first + 1) {
        Some(j) => {
            proof {
                lemma_find_from(cs@, colon@, first + 1);
                lemma_find_shift(cs@, colon@, first + 1);
            }
            (first + 1, j, j + 1)
        },
        None => {
            proof {
                lemma_find_from(cs@, colon@, first + 1);
                lemma_find_shift(cs@, colon@, first + 1);
            }
            (first + 1, n, n)
        },
    };
    proof {
        match split_once(rest, ':') {
            Some((a, b)) => {
                assert(a =~= cs@.subrange(num_lo as int, num_hi as int));
                assert(b =~= cs@.subrange(text_lo as int, n as int));
            },
            None => {
                assert(rest =~= cs@.subrange(num_lo as int, num_hi as int));
                assert(cs@.subrange(text_lo as int, n as int) =~= Seq::<char>::empty());
            },
        }
    }
    match parse_usize_range(&cs, num_lo, num_hi) {
        Some(v) => Some(
            GrepMatch {
                path: string_of_range(&cs, 0, first),
                line_number: v,
                text: string_of_range(&cs, text_lo, n),
            },
        ),
        None => None,
    }
}

/// Searching a suffix of `s` finds what searching `s` from that point finds.
pub proof fn lemma_find_shift<A>(s: Seq<A>, p: Seq<A>, k: int)
    requires
        0 <= k <= s.len(),
    ensures
        match crate::text::find_from(s, p, k) {
            Some(j) => crate::text::find_from(s.subrange(k, s.len() as int), p, 0) == Some(j - k),
            None => crate::text::find_from(s.subrange(k, s.len() as int), p, 0) is None,
        },
{
    let t = s.subrange(k, s.len() as int);
    lemma_find_from(s, p, k);
    lemma_find_from(t, p, 0);
    assert forall|m: int| 0 <= m implies #[trigger] crate::text::matches_at(t, p, m)
        == crate::text::matches_at(s, p, m + k) by {
        if m + p.len() <= t.len() {
            assert(t.subrange(m, m + p.len()) =~= s.subrange(m + k, m + k + p.len()));
        }
    }
    match crate::text::find_from(s, p, k) {
        Some(j) => {
            assert(crate::text::matches_at(t, p, j - k));
            assert forall|m: int| 0 <= m < j - k implies !crate::text::matches_at(t, p, m) by {
                assert(!crate::text::matches_at(s, p, m + k));
            }
            lemma_find_first(t, p, 0, j - k);
        },
        None => {
            match crate::text::find_from(t, p, 0) {
                Some(m) => {
                    assert(crate::text::matches_at(s, p, m + k));
                },
                None => {},
            }
        },
    }
}

/// A match with none before it, at or after `i`, is what `find_from` finds.
pub proof fn lemma_find_first<A>(s: Seq<A>, p: Seq<A>, i: int, j: int)
    requires
        0 <= i <= j,
        crate::text::matches_at(s, p, j),
        forall|k: int| i <= k < j ==> !crate::text::matches_at(s, p, k),
    ensures
        crate::text::find_from(s, p, i) == Some(j),
    decreases j - i,
{
    if i < j {
        assert(!crate::text::matches_at(s, p, i));
        if p.len() == 0 {
            assert(s.subrange(i, i) =~= p);
        }
        lemma_find_first(s, p, i + 1, j);
    }
}

/// Every match in the output of `grep -rnHI`, in order.
fn all_grep_matches(stdout: &str) -> (r: GrepResult)
    ensures
        r.matches@.map_values(|m: GrepMatch| match_view(m)) == grep_matches(lines(stdout@)),
{
    let ls = lines_of(stdout);
    let mut matches: Vec<GrepMatch> = Vec::new();
    let mut k: usize = 0;
    while k < ls.len()
        invariant
            k <= ls@.len(),
            views(ls@) == lines(stdout@),
            matches@.map_values(|m: GrepMatch| match_view(m)) == grep_matches(
                lines(stdout@).take(k as int),
            ),
        decreases ls@.len() - k,
    {
        let ghost l = lines(stdout@);
        proof {
            assert(l.take(k + 1).drop_last() =~= l.take(k as int));
            assert(l.take(k + 1).last() == ls@[k as int]@);
        }
        match parse_grep_line(ls[k].as_str()) {
            Some(m) => {
                let ghost before = matches@;
                matches.push(m);
                proof {
                    assert(matches@.map_values(|m: GrepMatch| match_view(m)) =~= before.map_values(
                        |m: GrepMatch| match_view(m),
                    ).push(match_view(m)));
                }
            },
            None => {},
        }
        k += 1;
    }
    proof {
        assert(lines(stdout@).take(k as int) =~= lines(stdout@));
    }
    GrepResult { matches }
}

/// How many results a search returns at most.
pub const MAX_RESULTS: usize = 200;

/// How many characters of a matching line a search returns at most.
pub const MAX_MATCH_CHARS: usize = 500;

/// The first `n` items of `s` (all of them when it has no more).
pub open spec fn first_n<A>(s: Seq<A>, n: nat) -> Seq<A> {
    if s.len() <= n {
        s
    } else {
        s.take(n as int)
    }
}

/// The matches a search returns: the first 200, each line's text cut to
/// its first 500 characters.
pub open spec fn capped_matches(ls: Seq<Seq<char>>) -> Seq<(Seq<char>, nat, Seq<char>)> {
    first_n(grep_matches(ls), MAX_RESULTS as nat).map_values(
        |m: (Seq<char>, nat, Seq<char>)| (m.0, m.1, first_n(m.2, MAX_MATCH_CHARS as nat)),
    )
}

/// `s` cut to its first `n` characters.
fn clip(s: &String, n: usize) -> (r: String)
    ensures
        r@ == first_n(s@, n as nat),
{
    let cs = chars_of(s.as_str());
    if cs.len() <= n {
        s.clone()
    } else {
        assert(cs@.subrange(0, n as int) =~= cs@.take(n as int));
        string_of_range(&cs, 0, n)
    }
}

/// Reads the output of `grep -rnHI`: one match per line that has the form
/// `path:line:text` (other lines are skipped); at most the first 200
/// matches are kept, and the text of each is cut to 500 characters.
pub fn parse_grep_output(stdout: &str) -> (r: GrepResult)
    ensures
        r.matches@.map_values(|m: GrepMatch| match_view(m)) == capped_matches(lines(stdout@)),
{
    let all = all_grep_matches(stdout).matches;
    let ghost full = all@.map_values(|m: GrepMatch| match_view(m));
    let n = if all.len() <= MAX_RESULTS {
        all.len()
    } else {
        MAX_RESULTS
    };
    let mut matches: Vec<GrepMatch> = Vec::new();
    let mut i: usize = 0;
    while i < n
        invariant
            n <= all@.len(),
            n == (if all@.len() <= MAX_RESULTS { all@.len() } else { MAX_RESULTS as nat }),
            i <= n,
            full == all@.map_values(|m: GrepMatch| match_view(m)),
            full == grep_matches(lines(stdout@)),
            matches@.map_values(|m: GrepMatch| match_view(m)) == full.take(i as int).map_values(
                |m: (Seq<char>, nat, Seq<char>)| (m.0, m.1, first_n(m.2, MAX_MATCH_CHARS as nat)),
            ),
        decreases n - i,
    {
        let m = &all[i];
        let c = GrepMatch {
            path: m.path.clone(),
            line_number: m.line_number,
            text: clip(&m.text, MAX_MATCH_CHARS),
        };
        let ghost before = matches@;
        assert(full[i as int] == match_view(all@[i as int]));
        assert(match_view(c) == (full[i as int].0, full[i as int].1, first_n(
            full[i as int].2,
            MAX_MATCH_CHARS as nat,
        )));
        matches.push(c);
        assert(full.take(i + 1) =~= full.take(i as int).push(full[i as int]));
        assert(matches@.map_values(|m: GrepMatch| match_view(m)) =~= before.map_values(
            |m: GrepMatch| match_view(m),
        ).push(match_view(c)));
        assert(matches@.map_values(|m: GrepMatch| match_view(m)) =~= full.take(i + 1).map_values(
            |m: (Seq<char>, nat, Seq<char>)| (m.0, m.1, first_n(m.2, MAX_MATCH_CHARS as nat)),
        ));
        i += 1;
    }
    assert(full.take(n as int) =~= first_n(full, MAX_RESULTS as nat));
    GrepResult { matches }
}

/// Reads the output of `find`: one file per line, at most the first 200.
pub fn parse_find_output(stdout: &str) -> (r: FindResult)
    ensures
        views(r.files@) == first_n(lines(stdout@), MAX_RESULTS as nat),
{
    let all = lines_of(stdout);
    let n = if all.len() <= MAX_RESULTS {
        all.len()
    } else {
        MAX_RESULTS
    };
    let mut files: Vec<String> = Vec::new();
    let mut i: usize = 0;
    while i < n
        invariant
            n <= all@.len(),
            n == (if all@.len() <= MAX_RESULTS { all@.len() } else { MAX_RESULTS as nat }),
            i <= n,
            views(all@) == lines(stdout@),
            views(files@) == views(all@).take(i as int),
        decreases n - i,
    {
        proof {
            lemma_views_push(files@, all@[i as int]);
        }
        files.push(all[i].clone());
        assert(views(all@).take(i + 1) =~= views(all@).take(i as int).push(all@[i as int]@));
        i += 1;
    }
    assert(views(all@).take(n as int) =~= first_n(views(all@), MAX_RESULTS as nat));
    FindResult { files }
}

/// The result of writing `content`: its size in bytes.
pub fn write_result(content: &str) -> (r: WriteResult)
    ensures
        r.size == byte_len(content@),
{
    let n = content.as_bytes().len();
    WriteResult { size: n as u64 }
}

/// How running a shell command ended.
pub enum CommandOutcome {
    /// It ran; `code` is its exit code, if it exited with one.
    Completed { stdout: String, stderr: String, code: Option<i32> },
    /// It could not be run.
    Failed(String),
    /// It ran out of time.
    TimedOut,
}

/// What the bash tool reports for an outcome: a missing exit code counts
/// as -1, and so do a command that could not run (its error as stderr) and
/// one that ran out of time (`"command timed out"`).
pub fn bash_result(outcome: CommandOutcome) -> (r: BashResult)
    ensures
        match outcome {
            CommandOutcome::Completed { stdout, stderr, code } => r.stdout@ == stdout@
                && r.stderr@ == stderr@ && r.exit_code == (match code {
                Some(c) => c as int,
                None => -1,
            }),
            CommandOutcome::Failed(e) => r.stdout@.len() == 0 && r.stderr@ == e@ && r.exit_code
                == -1,
            CommandOutcome::TimedOut => r.stdout@.len() == 0 && r.stderr@ == "command timed out"@
                && r.exit_code == -1,
        },
{
    match outcome {
        CommandOutcome::Completed { stdout, stderr, code } => BashResult {
            stdout,
            stderr,
            exit_code: match code {
                Some(c) => c,
                None => -1,
            },
        },
        CommandOutcome::Failed(e) => BashResult { stdout: String::new(), stderr: e, exit_code: -1 },
        CommandOutcome::TimedOut => BashResult {
            stdout: String::new(),
            stderr: "command timed out".to_owned(),
            exit_code: -1,
        },
    }
}

/// The directory where a user's nix profile keeps its binaries.
pub open spec fn nix_bin_dir(home: Seq<char>) -> Seq<char> {
    home + "/.local/state/nix/profile/bin"@
}

/// The `PATH` that shell commands run with: the user's nix profile
/// binaries first, then the existing `PATH`.
pub fn command_path(home: &str, existing: &str) -> (r: String)
    ensures
        r@ == nix_bin_dir(home@) + ":"@ + existing@,
{
    let dir = concat(home, "/.local/state/nix/profile/bin");
    let with_colon = concat(dir.as_str(), ":");
    concat(with_colon.as_str(), existing)
}

/// Every edit is either applied or refused with a message: the count of
/// applied edits and of messages add up to the number of edits.
pub proof fn law_every_edit_accounted(text: Seq<char>, edits: Seq<(Seq<char>, Seq<char>)>)
    ensures
        apply_all(text, edits).1 + apply_all(text, edits).2.len() == edits.len(),
{
    lemma_edits_count(text, edits, 0, 0, seq![]);
}

/// How `edits_from` counts.
proof fn lemma_edits_count(
    text: Seq<char>,
    edits: Seq<(Seq<char>, Seq<char>)>,
    i: int,
    applied: nat,
    errors: Seq<Seq<char>>,
)
    requires
        0 <= i <= edits.len(),
    ensures
        edits_from(text, edits, i, applied, errors).1 + edits_from(
            text,
            edits,
            i,
            applied,
            errors,
        ).2.len() == applied + errors.len() + edits.len() - i,
    decreases edits.len() - i,
{
    if i < edits.len() {
        let (old_text, new_text) = edits[i];
        if old_text.len() == 0 {
            lemma_edits_count(
                text,
                edits,
                i + 1,
                applied,
                errors.push(edit_error(i as nat, "old_text is empty"@)),
            );
        } else if !contains_seq(text, old_text) {
            lemma_edits_count(
                text,
                edits,
                i + 1,
                applied,
                errors.push(edit_error(i as nat, "old_text not found"@)),
            );
        } else {
            lemma_edits_count(replace_all(text, old_text, new_text), edits, i + 1, applied + 1, errors);
        }
    }
}

/// An edit that is refused leaves the text as it was: applying edits that
/// are all refused changes nothing.
pub proof fn law_refused_edits_change_nothing(text: Seq<char>, edits: Seq<(Seq<char>, Seq<char>)>)
    requires
        forall|i: int|
            0 <= i < edits.len() ==> (#[trigger] edits[i]).0.len() == 0 || !contains_seq(
                text,
                edits[i].0,
            ),
    ensures
        apply_all(text, edits).0 == text,
        apply_all(text, edits).1 == 0,
{
    lemma_refused(text, edits, 0, seq![]);
}

/// How `edits_from` treats refused edits.
proof fn lemma_refused(
    text: Seq<char>,
    edits: Seq<(Seq<char>, Seq<char>)>,
    i: int,
    errors: Seq<Seq<char>>,
)
    requires
        0 <= i <= edits.len(),
        forall|k: int|
            0 <= k < edits.len() ==> (#[trigger] edits[k]).0.len() == 0 || !contains_seq(
                text,
                edits[k].0,
            ),
    ensures
        edits_from(text, edits, i, 0, errors).0 == text,
        edits_from(text, edits, i, 0, errors).1 == 0,
    decreases edits.len() - i,
{
    if i < edits.len() {
        let (old_text, new_text) = edits[i];
        if old_text.len() == 0 {
            lemma_refused(text, edits, i + 1, errors.push(edit_error(i as nat, "old_text is empty"@)));
        } else {
            lemma_refused(text, edits, i + 1, errors.push(edit_error(i as nat, "old_text not found"@)));
        }
    }
}

/// How much `replace_from` changes the length: `k` occurrences replaced,
/// at least one where the pattern occurs at or after `i`.
proof fn lemma_replace_from_len(s: Seq<char>, o: Seq<char>, n: Seq<char>, i: int) -> (k: nat)
    requires
        o.len() > 0,
        0 <= i <= s.len(),
    ensures
        crate::text::replace_from(s, o, n, i).len() + k * o.len() == (s.len() - i) + k * n.len(),
        crate::text::find_from(s, o, i) is Some ==> k >= 1,
    decreases s.len() - i,
{
    lemma_find_from(s, o, i);
    match crate::text::find_from(s, o, i) {
        None => 0,
        Some(j) => {
            let k2 = lemma_replace_from_len(s, o, n, j + o.len());
            let r = crate::text::replace_from(s, o, n, j + o.len());
            assert(crate::text::replace_from(s, o, n, i) == s.subrange(i, j) + n + r);
            assert((k2 + 1) * o.len() == k2 * o.len() + o.len()) by (nonlinear_arith);
            assert((k2 + 1) * n.len() == k2 * n.len() + n.len()) by (nonlinear_arith);
            k2 + 1
        },
    }
}

/// `replace_from` with a single character and a text without it leaves no
/// occurrence of that character.
proof fn lemma_replace_char_gone(s: Seq<char>, c: char, n: Seq<char>, i: int)
    requires
        0 <= i <= s.len(),
        !n.contains(c),
    ensures
        !crate::text::replace_from(s, seq![c], n, i).contains(c),
    decreases s.len() - i,
{
    let o = seq![c];
    lemma_find_from(s, o, i);
    match crate::text::find_from(s, o, i) {
        None => {
            assert forall|x: int| i <= x < s.len() implies s[x] != c by {
                if s[x] == c {
                    assert(s.subrange(x, x + 1) =~= o);
                    assert(crate::text::matches_at(s, o, x));
                }
            }
            assert(crate::text::replace_from(s, o, n, i) == s.subrange(i, s.len() as int));
        },
        Some(j) => {
            lemma_replace_char_gone(s, c, n, j + 1);
            let r = crate::text::replace_from(s, o, n, j + 1);
            assert forall|x: int| i <= x < j implies s[x] != c by {
                if s[x] == c {
                    assert(s.subrange(x, x + 1) =~= o);
                    assert(crate::text::matches_at(s, o, x));
                }
            }
            let whole = s.subrange(i, j) + n + r;
            assert(crate::text::replace_from(s, o, n, i) == whole);
            assert forall|x: int| 0 <= x < whole.len() implies whole[x] != c by {
                if x < j - i {
                    assert(whole[x] == s[i + x]);
                } else if x < j - i + n.len() {
                    assert(whole[x] == n[x - (j - i)]);
                } else {
                    assert(whole[x] == r[x - (j - i) - n.len()]);
                }
            }
        },
    }
}

/// An edit that applies (a non-empty old text that occurs) replaces every
/// occurrence of its old text with its new text, whatever the new text,
/// the empty one included: the text grows or shrinks by the difference of
/// the two lengths once for each of the one or more occurrences, so a
/// deletion always makes the text shorter; and an edit that replaces one
/// character by a text without it leaves none of that character.
pub proof fn law_applied_edit_replaces(text: Seq<char>, old_text: Seq<char>, new_text: Seq<char>)
    requires
        old_text.len() > 0,
        contains_seq(text, old_text),
    ensures
        apply_all(text, seq![(old_text, new_text)]) == (replace_all(text, old_text, new_text), 1nat, Seq::<Seq<char>>::empty()),
        exists|k: nat|
            k >= 1 && #[trigger] (k * old_text.len()) + apply_all(text, seq![(old_text, new_text)]).0.len()
                == text.len() + k * new_text.len(),
        new_text.len() == 0 ==> apply_all(text, seq![(old_text, new_text)]).0.len() < text.len(),
        old_text.len() == 1 && !new_text.contains(old_text[0]) ==> !apply_all(
            text,
            seq![(old_text, new_text)],
        ).0.contains(old_text[0]),
{
    let es = seq![(old_text, new_text)];
    assert(es[0] == (old_text, new_text));
    assert(apply_all(text, es) == edits_from(replace_all(text, old_text, new_text), es, 1, 1, seq![]));
    let k = lemma_replace_from_len(text, old_text, new_text, 0);
    assert(k * old_text.len() >= old_text.len()) by (nonlinear_arith)
        requires k >= 1, old_text.len() > 0;
    if new_text.len() == 0 {
        assert(k * new_text.len() == 0) by (nonlinear_arith)
            requires new_text.len() == 0;
    }
    if old_text.len() == 1 && !new_text.contains(old_text[0]) {
        assert(old_text =~= seq![old_text[0]]);
        lemma_replace_char_gone(text, old_text[0], new_text, 0);
    }
}

/// The edits after the first `a.len()` of `a + b` act as `b` alone does:
/// the text and the count do not depend on the messages so far.
proof fn lemma_edits_shift(
    text: Seq<char>,
    a: Seq<(Seq<char>, Seq<char>)>,
    b: Seq<(Seq<char>, Seq<char>)>,
    j: int,
    applied: nat,
    errors: Seq<Seq<char>>,
    errors2: Seq<Seq<char>>,
)
    requires
        0 <= j <= b.len(),
    ensures
        edits_from(text, a + b, a.len() + j, applied, errors).0 == edits_from(text, b, j, 0, errors2).0,
        edits_from(text, a + b, a.len() + j, applied, errors).1 == applied + edits_from(text, b, j, 0, errors2).1,
    decreases b.len() - j,
{
    let ab = a + b;
    if j < b.len() {
        let i = a.len() + j;
        assert(ab[i] == b[j]);
        let (old_text, new_text) = b[j];
        if old_text.len() == 0 {
            lemma_edits_shift(text, a, b, j + 1, applied, errors.push(edit_error(i as nat, "old_text is empty"@)),
                errors2.push(edit_error(j as nat, "old_text is empty"@)));
        } else if !contains_seq(text, old_text) {
            lemma_edits_shift(text, a, b, j + 1, applied, errors.push(edit_error(i as nat, "old_text not found"@)),
                errors2.push(edit_error(j as nat, "old_text not found"@)));
        } else {
            let t2 = replace_all(text, old_text, new_text);
            lemma_edits_shift(t2, a, b, j + 1, applied + 1, errors, errors2);
            lemma_edits_shift(t2, seq![], b, j + 1, 0, errors2, seq![]);
            lemma_edits_shift(t2, seq![], b, j + 1, 1, errors2, seq![]);
            assert(seq![] + b =~= b);
        }
    }
}

/// Applying `a + b` from position `i` is applying the rest of `a`, then
/// all of `b` to what results.
proof fn lemma_edits_concat(
    text: Seq<char>,
    a: Seq<(Seq<char>, Seq<char>)>,
    b: Seq<(Seq<char>, Seq<char>)>,
    i: int,
    applied: nat,
    errors: Seq<Seq<char>>,
)
    requires
        0 <= i <= a.len(),
    ensures
        edits_from(text, a + b, i, applied, errors).0 == apply_all(edits_from(text, a, i, applied, errors).0, b).0,
        edits_from(text, a + b, i, applied, errors).1 == edits_from(text, a, i, applied, errors).1 + apply_all(
            edits_from(text, a, i, applied, errors).0,
            b,
        ).1,
    decreases a.len() - i,
{
    let ab = a + b;
    if i < a.len() {
        assert(ab[i] == a[i]);
        let (old_text, new_text) = a[i];
        if old_text.len() == 0 {
            lemma_edits_concat(text, a, b, i + 1, applied, errors.push(edit_error(i as nat, "old_text is empty"@)));
        } else if !contains_seq(text, old_text) {
            lemma_edits_concat(text, a, b, i + 1, applied, errors.push(edit_error(i as nat, "old_text not found"@)));
        } else {
            lemma_edits_concat(replace_all(text, old_text, new_text), a, b, i + 1, applied + 1, errors);
        }
    } else {
        lemma_edits_shift(text, a, b, 0, applied, errors, seq![]);
    }
}

/// Edits apply one after another: applying `a` followed by `b` gives the
/// text that applying `b` to the result of `a` gives, and the applied
/// counts add up.
pub proof fn law_edits_compose(
    text: Seq<char>,
    a: Seq<(Seq<char>, Seq<char>)>,
    b: Seq<(Seq<char>, Seq<char>)>,
)
    ensures
        apply_all(text, a + b).0 == apply_all(apply_all(text, a).0, b).0,
        apply_all(text, a + b).1 == apply_all(text, a).1 + apply_all(apply_all(text, a).0, b).1,
{
    lemma_edits_concat(text, a, b, 0, 0, seq![]);
}

/// Replacing a text with itself changes nothing.
pub proof fn law_replace_with_same_text(s: Seq<char>, t: Seq<char>)
    requires
        t.len() > 0,
    ensures
        replace_all(s, t, t) == s,
{
    lemma_replace_same(s, t, 0);
    assert(s.subrange(0, s.len() as int) =~= s);
}

/// `replace_from` with the same text gives back the rest of `s`.
proof fn lemma_replace_same(s: Seq<char>, t: Seq<char>, i: int)
    requires
        t.len() > 0,
        0 <= i <= s.len(),
    ensures
        crate::text::replace_from(s, t, t, i) == s.subrange(i, s.len() as int),
    decreases s.len() - i,
{
    lemma_find_from(s, t, i);
    match crate::text::find_from(s, t, i) {
        None => {},
        Some(j) => {
            lemma_replace_same(s, t, j + t.len());
            assert(s.subrange(i, j) + t + s.subrange(j + t.len(), s.len() as int) =~= s.subrange(
                i,
                s.len() as int,
            ));
        },
    }
}

/// Where line `k` of `s` starts (lines counted from 0, each ended by
/// `\n`); the end of `s` when it has fewer lines.
pub open spec fn line_start(s: Seq<char>, k: nat) -> int
    decreases k,
{
    if k == 0 {
        0
    } else {
        let prev = line_start(s, (k - 1) as nat);
        match crate::text::find_from(s, seq!['\n'], prev) {
            Some(j) => j + 1,
            None => s.len() as int,
        }
    }
}

/// A line start lies within the text.
pub proof fn lemma_line_start(s: Seq<char>, k: nat)
    ensures
        0 <= line_start(s, k) <= s.len(),
        forall|m: nat| m <= k ==> line_start(s, m) <= line_start(s, k),
    decreases k,
{
    if k > 0 {
        lemma_line_start(s, (k - 1) as nat);
        lemma_find_from(s, seq!['\n'], line_start(s, (k - 1) as nat));
        assert forall|m: nat| m <= k implies line_start(s, m) <= line_start(s, k) by {
            if m < k {
                assert(line_start(s, m) <= line_start(s, (k - 1) as nat));
            }
        }
    }
}

/// The part of a file that a read returns: from the start of line `offset`
/// (1-indexed, 1 when not given) up to the start of the line `limit` lines
/// further, or to the end when no limit is given; each line keeps its line
/// break.
pub open spec fn read_range(s: Seq<char>, offset: Option<usize>, limit: Option<usize>) -> Seq<char> {
    let first: nat = match offset {
        Some(o) => if o >= 1 {
            (o - 1) as nat
        } else {
            0
        },
        None => 0,
    };
    let lo = line_start(s, first);
    let hi = match limit {
        Some(l) => line_start(s, (first + l) as nat),
        None => s.len() as int,
    };
    s.subrange(lo, hi)
}

/// Where line `k` of `s` starts.
fn line_start_of(s: &[char], k: usize) -> (r: usize)
    ensures
        r == line_start(s@, k as nat),
{
    let nl: Vec<char> = vec!['\n'];
    assert(nl@ =~= seq!['\n']);
    let mut pos: usize = 0;
    let mut m: usize = 0;
    while m < k
        invariant
            m <= k,
            nl@ == seq!['\n'],
            pos == line_start(s@, m as nat),
            pos <= s@.len(),
        decreases k - m,
    {
        if pos == s.len() {
            proof {
                lemma_line_start_end(s@, m as nat, k as nat);
            }
            return pos;
        }
        match find_chars(s, &nl, pos) {
            Some(j) => {
                proof {
                    lemma_find_from(s@, seq!['\n'], pos as int);
                }
                pos = j + 1;
            },
            None => {
                pos = s.len();
            },
        }
        m += 1;
    }
    pos
}

/// Line `k` starts at the end of the text or at least `k` characters in.
proof fn lemma_line_start_grows(s: Seq<char>, k: nat)
    ensures
        line_start(s, k) == s.len() || line_start(s, k) >= k,
    decreases k,
{
    if k > 0 {
        lemma_line_start_grows(s, (k - 1) as nat);
        lemma_line_start(s, (k - 1) as nat);
        lemma_find_from(s, seq!['\n'], line_start(s, (k - 1) as nat));
    }
}

/// Once a line start reaches the end of the text, later ones stay there.
proof fn lemma_line_start_end(s: Seq<char>, m: nat, k: nat)
    requires
        m <= k,
        line_start(s, m) == s.len(),
    ensures
        line_start(s, k) == s.len(),
    decreases k - m,
{
    if m < k {
        lemma_line_start_end(s, m, (k - 1) as nat);
        lemma_find_from(s, seq!['\n'], s.len() as int);
    }
}

/// The result of reading a file whose text is `content` (see `read_range`);
/// its size is the byte length of the text returned.
pub fn read_result(content: &str, offset: Option<usize>, limit: Option<usize>) -> (r: ReadResult)
    ensures
        r.content@ == read_range(content@, offset, limit),
        r.size == byte_len(r.content@),
{
    let cs = chars_of(content);
    let first: usize = match offset {
        Some(o) => if o >= 1 {
            o - 1
        } else {
            0
        },
        None => 0,
    };
    let lo = line_start_of(&cs, first);
    let n = cs.len();
    let hi = match limit {
        Some(l) => {
            if l > usize::MAX - first {
                cs.len()
            } else {
                line_start_of(&cs, first + l)
            }
        },
        None => cs.len(),
    };
    proof {
        lemma_line_start(cs@, first as nat);
        match limit {
            Some(l) => {
                lemma_line_start(cs@, (first + l) as nat);
                if l > usize::MAX - first {
                    lemma_line_start_grows(cs@, (first + l) as nat);
                }
            },
            None => {},
        }
    }
    let text = string_of_range(&cs, lo, hi);
    let size = text.as_str().as_bytes().len() as u64;
    ReadResult { content: text, size }
}

/// A lower-case hexadecimal digit.
pub open spec fn hex_digit(d: nat) -> char {
    if d < 10 {
        (48 + d) as char
    } else {
        (87 + d) as char
    }
}

/// The lower-case hexadecimal representation of `n`.
pub open spec fn hex(n: nat) -> Seq<char>
    decreases n,
{
    if n < 16 {
        seq![hex_digit(n)]
    } else {
        hex(n / 16).push(hex_digit(n % 16))
    }
}

/// `n` in lower-case hexadecimal, zero-padded to at least 16 digits
/// (`format!("{:016x}", n)`).
pub open spec fn hex16(n: nat) -> Seq<char> {
    let h = hex(n);
    if h.len() < 16 {
        Seq::new((16 - h.len()) as nat, |i: int| '0') + h
    } else {
        h
    }
}

/// Appends the hexadecimal representation of `n` to `out`.
fn push_hex(out: &mut Vec<char>, n: u128)
    ensures
        final(out)@ == old(out)@ + hex(n as nat),
    decreases n,
{
    let ghost start = out@;
    if n >= 16 {
        push_hex(out, n / 16);
    }
    let d = (n % 16) as u8;
    let c = if d < 10 {
        (48u8 + d) as char
    } else {
        (87u8 + d) as char
    };
    out.push(c);
    proof {
        if n >= 16 {
            assert(start + hex(n as nat) =~= (start + hex((n / 16) as nat)).push(c));
        } else {
            assert(start + hex(n as nat) =~= start.push(c));
        }
    }
}

/// A new background session's id, made from the current time in
/// nanoseconds since the Unix epoch: 16 or more lower-case hex digits.
pub fn generate_session_id(nanos: u128) -> (id: String)
    ensures
        id@ == hex16(nanos as nat),
{
    let mut digits: Vec<char> = Vec::new();
    push_hex(&mut digits, nanos);
    assert(digits@ =~= hex(nanos as nat));
    let mut out: Vec<char> = Vec::new();
    let mut k: usize = digits.len();
    while k < 16
        invariant
            digits.len() <= k <= 16 || (k == digits.len() && k >= 16),
            digits@ == hex(nanos as nat),
            out@ == Seq::new((k - digits@.len()) as nat, |i: int| '0'),
        decreases 16 - k,
    {
        out.push('0');
        assert(out@ =~= Seq::new((k + 1 - digits@.len()) as nat, |i: int| '0'));
        k += 1;
    }
    let mut i: usize = 0;
    let ghost pad = out@;
    while i < digits.len()
        invariant
            i <= digits@.len(),
            out@ == pad + digits@.take(i as int),
        decreases digits@.len() - i,
    {
        out.push(digits[i]);
        assert(pad + digits@.take(i + 1) =~= (pad + digits@.take(i as int)).push(digits@[i as int]));
        i += 1;
    }
    proof {
        assert(digits@.take(digits@.len() as int) =~= digits@);
        if digits@.len() >= 16 {
            assert(pad =~= Seq::<char>::empty());
            assert(out@ =~= hex(nanos as nat));
        }
    }
    crate::text::string_of(&out)
}

/// The directory a search starts from: the one given, else `.`.
pub open spec fn search_root(path: Option<Seq<char>>) -> Seq<char> {
    match path {
        Some(p) => p,
        None => "."@,
    }
}

/// The directory a search starts from: the one given, else `.`.
pub fn search_root_of(path: Option<&str>) -> (r: String)
    ensures
        r@ == search_root(match path {
            Some(p) => Some(p@),
            None => None,
        }),
{
    match path {
        Some(p) => p.to_owned(),
        None => ".".to_owned(),
    }
}

/// The arguments of `grep` for a search of `pattern` under `root`:
/// recursive, with file names and line numbers, binary files skipped.
pub fn grep_args(pattern: &str, root: &str) -> (r: Vec<String>)
    ensures
        views(r@) == seq!["-rnHI"@, "--"@, pattern@, root@],
{
    let r = vec!["-rnHI".to_owned(), "--".to_owned(), pattern.to_owned(), root.to_owned()];
    assert(views(r@) =~= seq!["-rnHI"@, "--"@, pattern@, root@]);
    r
}

/// The arguments of `find` for the files under `root`, only those whose
/// name matches `name` when one is given.
pub fn find_args(root: &str, name: Option<&str>) -> (r: Vec<String>)
    ensures
        views(r@) == seq![root@, "-type"@, "f"@] + match name {
            Some(n) => seq!["-name"@, n@],
            None => Seq::<Seq<char>>::empty(),
        },
{
    let mut r = vec![root.to_owned(), "-type".to_owned(), "f".to_owned()];
    match name {
        Some(n) => {
            r.push("-name".to_owned());
            r.push(n.to_owned());
        },
        None => {},
    }
    assert(views(r@) =~= seq![root@, "-type"@, "f"@] + match name {
        Some(n) => seq!["-name"@, n@],
        None => Seq::<Seq<char>>::empty(),
    });
    r
}

/// The arguments of `kill` that stop a background session: SIGTERM to the
/// process group that its shell leads.
pub fn kill_args(pid: u32) -> (r: Vec<String>)
    ensures
        views(r@) == seq!["--"@, seq!['-'] + decimal(pid as nat)],
{
    proof {
        reveal_strlit("-");
        assert("-"@ =~= seq!['-']);
    }
    let group = concat("-", decimal_string(pid as u64).as_str());
    let r = vec!["--".to_owned(), group];
    assert(views(r@) =~= seq!["--"@, seq!['-'] + decimal(pid as nat)]);
    r
}

/// The result of writing raw bytes: how many.
pub fn bytes_written(data: &[u8]) -> (r: WriteResult)
    ensures
        r.size == data@.len(),
{
    WriteResult { size: data.len() as u64 }
}

/// The name of the directory, under the system's temporary directory, that
/// keeps a background session's logs.
pub fn session_dir_name(session_id: &str) -> (r: String)
    ensures
        r@ == "ws-"@ + session_id@,
{
    concat("ws-", session_id)
}

/// A background session as the session table keeps it.
pub struct SessionState {
    pub pid: u32,
    pub command: String,
    pub log_dir: String,
    pub running: bool,
    pub exit_code: Option<i32>,
}

/// A session's state as plain values.
pub struct SessionView {
    pub pid: u32,
    pub command: Seq<char>,
    pub log_dir: Seq<char>,
    pub running: bool,
    pub exit_code: Option<i32>,
}

impl View for SessionState {
    type V = SessionView;

    open spec fn view(&self) -> SessionView {
        SessionView {
            pid: self.pid,
            command: self.command@,
            log_dir: self.log_dir@,
            running: self.running,
            exit_code: self.exit_code,
        }
    }
}

/// The background sessions, by id, in the order they were started.
pub struct BackgroundSessions {
    pub table: Table<SessionState>,
}

/// The sessions as plain values.
pub type SessionMap = Map<Seq<char>, SessionView>;

/// A status as plain values.
pub open spec fn status_view(r: StatusResult) -> (Seq<char>, u32, Seq<char>, bool, Option<i32>) {
    (r.session_id@, r.pid, r.command@, r.running, r.exit_code)
}

/// The status of session `id` in `m`.
pub open spec fn status_of(m: SessionMap, id: Seq<char>) -> (Seq<char>, u32, Seq<char>, bool, Option<i32>) {
    (id, m[id].pid, m[id].command, m[id].running, m[id].exit_code)
}

/// What the kill tool does first with session `id`.
pub enum KillStep {
    /// Answer at once.
    Done(KillResult),
    /// Send SIGTERM to this process, then report with `killed`.
    Signal(u32),
}

impl View for BackgroundSessions {
    type V = SessionMap;

    open spec fn view(&self) -> SessionMap {
        Map::new(
            |k: Seq<char>| self.table.map().contains_key(k),
            |k: Seq<char>| self.table.map()[k]@,
        )
    }
}

impl BackgroundSessions {
    /// No session yet.
    pub fn new() -> (s: Self)
        ensures
            s@ == SessionMap::empty(),
            s.table.seq().len() == 0,
    {
        let s = BackgroundSessions { table: Table::new() };
        assert(s@ =~= SessionMap::empty());
        s
    }

    /// Records a session just started: running, with no exit code yet.
    pub fn start(&mut self, id: String, pid: u32, command: &str, log_dir: String)
        ensures
            final(self)@ == old(self)@.insert(
                id@,
                SessionView {
                    pid,
                    command: command@,
                    log_dir: log_dir@,
                    running: true,
                    exit_code: None,
                },
            ),
    {
        let ghost k = id@;
        let st = SessionState {
            pid,
            command: command.to_owned(),
            log_dir,
            running: true,
            exit_code: None,
        };
        let ghost v = st@;
        self.table.insert(id, st);
        assert(self@ =~= old(self)@.insert(k, v));
    }

    /// The state of session `id` (the status tool).
    pub fn get_status(&self, id: &str) -> (r: Result<StatusResult, ToolError>)
        ensures
            match r {
                Ok(st) => self@.contains_key(id@) && status_view(st) == status_of(self@, id@),
                Err(e) => !self@.contains_key(id@) && e.0@ == "session not found"@,
            },
    {
        match self.table.get(id) {
            Some(s) => Ok(
                StatusResult {
                    session_id: id.to_owned(),
                    pid: s.pid,
                    command: s.command.clone(),
                    running: s.running,
                    exit_code: s.exit_code,
                },
            ),
            None => Err(ToolError("session not found".to_owned())),
        }
    }

    /// Whether session `id` runs, its exit code, and where its logs are
    /// (what the logs tool reads before the log files).
    pub fn log_source(&self, id: &str) -> (r: Result<(bool, Option<i32>, String), ToolError>)
        ensures
            match r {
                Ok((running, code, dir)) => self@.contains_key(id@) && running == self@[id@].running
                    && code == self@[id@].exit_code && dir@ == self@[id@].log_dir,
                Err(e) => !self@.contains_key(id@) && e.0@ == "session not found"@,
            },
    {
        match self.table.get(id) {
            Some(s) => Ok((s.running, s.exit_code, s.log_dir.clone())),
            None => Err(ToolError("session not found".to_owned())),
        }
    }

    /// Records that session `id` exited with `code`.
    pub fn exited(&mut self, id: &str, code: Option<i32>)
        ensures
            old(self)@.contains_key(id@) ==> final(self)@ == old(self)@.insert(
                id@,
                SessionView { running: false, exit_code: code, ..old(self)@[id@] },
            ),
            !old(self)@.contains_key(id@) ==> final(self)@ == old(self)@,
    {
        let updated = match self.table.get(id) {
            Some(s) => SessionState {
                pid: s.pid,
                command: s.command.clone(),
                log_dir: s.log_dir.clone(),
                running: false,
                exit_code: code,
            },
            None => {
                return;
            },
        };
        let ghost v = updated@;
        self.table.insert(id.to_owned(), updated);
        assert(self@ =~= old(self)@.insert(id@, v));
    }

    /// The first step of the kill tool: a session that already exited, or
    /// has no process id, is answered at once; else its process is to be
    /// sent SIGTERM.
    pub fn kill_session(&self, id: &str) -> (r: Result<KillStep, ToolError>)
        ensures
            match r {
                Err(e) => !self@.contains_key(id@) && e.0@ == "session not found"@,
                Ok(KillStep::Done(k)) => self@.contains_key(id@) && !k.killed && (if !self@[id@].running {
                    k.message@ == "already exited"@
                } else {
                    self@[id@].pid == 0 && k.message@ == "no pid"@
                }),
                Ok(KillStep::Signal(pid)) => self@.contains_key(id@) && self@[id@].running && pid
                    == self@[id@].pid && pid != 0,
            },
    {
        let (running, pid) = match self.table.get(id) {
            Some(s) => (s.running, s.pid),
            None => {
                return Err(ToolError("session not found".to_owned()));
            },
        };
        if !running {
            return Ok(KillStep::Done(KillResult { killed: false, message: "already exited".to_owned() }));
        }
        if pid == 0 {
            return Ok(KillStep::Done(KillResult { killed: false, message: "no pid".to_owned() }));
        }
        Ok(KillStep::Signal(pid))
    }

    /// The last step of the kill tool: when `kill` succeeded, the session is
    /// marked as no longer running, with exit code -15 unless it had one.
    pub fn killed(&mut self, id: &str, success: bool) -> (r: KillResult)
        ensures
            success ==> r.killed && r.message@ == "SIGTERM sent"@,
            !success ==> !r.killed && r.message@ == "kill command failed"@,
            success && old(self)@.contains_key(id@) ==> final(self)@ == old(self)@.insert(
                id@,
                SessionView {
                    running: false,
                    exit_code: match old(self)@[id@].exit_code {
                        Some(c) => Some(c),
                        None => Some(-15i32),
                    },
                    ..old(self)@[id@]
                },
            ),
            !(success && old(self)@.contains_key(id@)) ==> final(self)@ == old(self)@,
    {
        if !success {
            return KillResult { killed: false, message: "kill command failed".to_owned() };
        }
        let code = match self.table.get(id) {
            Some(s) => match s.exit_code {
                Some(c) => Some(c),
                None => Some(-15i32),
            },
            None => {
                return KillResult { killed: true, message: "SIGTERM sent".to_owned() };
            },
        };
        self.exited(id, code);
        KillResult { killed: true, message: "SIGTERM sent".to_owned() }
    }

    /// The status of every session, oldest first (the sessions tool).
    pub fn list_sessions(&self) -> (r: Vec<StatusResult>)
        ensures
            r@.len() == self.table.seq().len(),
            forall|i: int|
                0 <= i < r@.len() ==> status_view(#[trigger] r@[i]) == (
                    self.table.seq()[i].0,
                    self.table.seq()[i].1.pid,
                    self.table.seq()[i].1.command@,
                    self.table.seq()[i].1.running,
                    self.table.seq()[i].1.exit_code,
                ),
    {
        let mut r: Vec<StatusResult> = Vec::new();
        let mut i: usize = 0;
        while i < self.table.len()
            invariant
                i <= self.table.seq().len(),
                r@.len() == i,
                forall|k: int|
                    0 <= k < i ==> status_view(#[trigger] r@[k]) == (
                        self.table.seq()[k].0,
                        self.table.seq()[k].1.pid,
                        self.table.seq()[k].1.command@,
                        self.table.seq()[k].1.running,
                        self.table.seq()[k].1.exit_code,
                    ),
            decreases self.table.seq().len() - i,
        {
            let (id, s) = self.table.entry(i);
            r.push(
                StatusResult {
                    session_id: id.clone(),
                    pid: s.pid,
                    command: s.command.clone(),
                    running: s.running,
                    exit_code: s.exit_code,
                },
            );
            i += 1;
        }
        r
    }
}

/// The logs result for what a session printed: the texts and their sizes
/// in bytes.
pub fn logs_result(stdout: String, stderr: String, running: bool, exit_code: Option<i32>) -> (r:
    LogsResult)
    ensures
        r.stdout@ == stdout@,
        r.stderr@ == stderr@,
        r.stdout_len == byte_len(stdout@),
        r.stderr_len == byte_len(stderr@),
        r.running == running,
        r.exit_code == exit_code,
{
    let a = stdout.as_str().as_bytes().len() as u64;
    let b = stderr.as_str().as_bytes().len() as u64;
    LogsResult { stdout, stderr, stdout_len: a, stderr_len: b, running, exit_code }
}

/// `a` comes before `b` in lexicographic byte order.
pub open spec fn bytes_lt(a: Seq<u8>, b: Seq<u8>) -> bool
    decreases a.len(),
{
    if b.len() == 0 {
        false
    } else if a.len() == 0 {
        true
    } else if a[0] != b[0] {
        a[0] < b[0]
    } else {
        bytes_lt(a.drop_first(), b.drop_first())
    }
}

/// Byte order is transitive.
pub proof fn lemma_bytes_lt_transitive(a: Seq<u8>, b: Seq<u8>, c: Seq<u8>)
    requires
        bytes_lt(a, b),
        bytes_lt(b, c),
    ensures
        bytes_lt(a, c),
    decreases a.len(),
{
    if a.len() > 0 && b.len() > 0 && c.len() > 0 && a[0] == b[0] && b[0] == c[0] {
        lemma_bytes_lt_transitive(a.drop_first(), b.drop_first(), c.drop_first());
    }
}

/// The byte string by which directory entries are ordered: the name's UTF-8.
pub open spec fn entry_key(name: Seq<char>) -> Seq<u8> {
    vstd::utf8::encode_utf8(name)
}

/// An entry as plain values.
pub open spec fn entry_view(e: LsEntry) -> (Seq<char>, bool, u64) {
    (e.name@, e.is_dir, e.size)
}

/// The views of a list of entries.
pub open spec fn entry_views(v: Seq<LsEntry>) -> Seq<(Seq<char>, bool, u64)> {
    v.map_values(|e: LsEntry| entry_view(e))
}

/// Entries ordered by name, as `String`'s order (bytewise) has them.
pub open spec fn sorted_by_name(v: Seq<(Seq<char>, bool, u64)>) -> bool {
    forall|i: int, j: int|
        0 <= i < j < v.len() ==> !bytes_lt(entry_key(#[trigger] v[j].0), entry_key(#[trigger] v[i].0))
}

/// Whether `a` comes before `b` in byte order.
fn bytes_less(a: &[u8], b: &[u8]) -> (r: bool)
    ensures
        r == bytes_lt(a@, b@),
{
    let mut i: usize = 0;
    assert(a@.skip(0) =~= a@);
    assert(b@.skip(0) =~= b@);
    while i < a.len() && i < b.len()
        invariant
            i <= a@.len(),
            i <= b@.len(),
            a@.take(i as int) == b@.take(i as int),
            bytes_lt(a@, b@) == bytes_lt(a@.skip(i as int), b@.skip(i as int)),
        decreases a@.len() - i,
    {
        if a[i] != b[i] {
            assert(a@.skip(i as int)[0] == a@[i as int]);
            assert(b@.skip(i as int)[0] == b@[i as int]);
            return a[i] < b[i];
        }
        proof {
            assert(a@.skip(i as int).drop_first() =~= a@.skip(i + 1));
            assert(b@.skip(i as int).drop_first() =~= b@.skip(i + 1));
            assert(a@.take(i + 1) =~= a@.take(i as int).push(a@[i as int]));
            assert(b@.take(i + 1) =~= b@.take(i as int).push(b@[i as int]));
        }
        i += 1;
    }
    proof {
        if i == b@.len() {
            assert(b@.skip(i as int).len() == 0);
        } else {
            assert(a@.skip(i as int).len() == 0);
        }
    }
    i < b.len()
}

/// Orders directory entries by name (the last step of the ls tool).
pub fn sort_entries(entries: Vec<LsEntry>) -> (r: Vec<LsEntry>)
    ensures
        sorted_by_name(entry_views(r@)),
        entry_views(r@).to_multiset() == entry_views(entries@).to_multiset(),
{
    broadcast use vstd::seq_lib::group_to_multiset_ensures;

    let mut rest = entries;
    let mut out: Vec<LsEntry> = Vec::new();
    let ghost all = entry_views(rest@).to_multiset();
    assert(entry_views(out@) =~= Seq::<(Seq<char>, bool, u64)>::empty());
    while rest.len() > 0
        invariant
            sorted_by_name(entry_views(out@)),
            forall|i: int, j: int|
                0 <= i < out@.len() && 0 <= j < rest@.len() ==> !bytes_lt(
                    entry_key(#[trigger] rest@[j].name@),
                    entry_key(#[trigger] out@[i].name@),
                ),
            entry_views(out@).to_multiset().add(entry_views(rest@).to_multiset()) == all,
        decreases rest@.len(),
    {
        let mut best: usize = 0;
        let mut k: usize = 1;
        proof {
            lemma_bytes_lt_irreflexive(entry_key(rest@[0].name@));
        }
        while k < rest.len()
            invariant
                0 < rest@.len(),
                best < k <= rest@.len(),
                forall|m: int|
                    0 <= m < k ==> !bytes_lt(
                        entry_key(#[trigger] rest@[m].name@),
                        entry_key(rest@[best as int].name@),
                    ),
            decreases rest@.len() - k,
        {
            if bytes_less(rest[k].name.as_str().as_bytes(), rest[best].name.as_str().as_bytes()) {
                proof {
                    assert forall|m: int| 0 <= m < k + 1 implies !bytes_lt(
                        entry_key(#[trigger] rest@[m].name@),
                        entry_key(rest@[k as int].name@),
                    ) by {
                        if m < k && bytes_lt(entry_key(rest@[m].name@), entry_key(rest@[k as int].name@)) {
                            lemma_bytes_lt_transitive(
                                entry_key(rest@[m].name@),
                                entry_key(rest@[k as int].name@),
                                entry_key(rest@[best as int].name@),
                            );
                        }
                        if m == k {
                            lemma_bytes_lt_irreflexive(entry_key(rest@[k as int].name@));
                        }
                    }
                }
                best = k;
            }
            k += 1;
        }
        let ghost r0 = rest@;
        let ghost o0 = out@;
        let e = rest.remove(best);
        out.push(e);
        proof {
            assert(entry_views(rest@) =~= entry_views(r0).remove(best as int));
            assert(entry_views(out@) =~= entry_views(o0).push(entry_view(e)));
            assert(entry_views(r0)[best as int] == entry_view(e));
            let ro = entry_views(r0);
            ro.to_multiset_ensures();
            entry_views(o0).to_multiset_ensures();
            assert(ro.contains(entry_view(e)));
            assert(ro.to_multiset().count(entry_view(e)) > 0);
            assert(entry_views(out@).to_multiset().add(entry_views(rest@).to_multiset())
                =~= entry_views(o0).to_multiset().add(ro.to_multiset()));
            assert(sorted_by_name(entry_views(out@))) by {
                let v = entry_views(out@);
                assert forall|i: int, j: int| 0 <= i < j < v.len() implies !bytes_lt(
                    entry_key(#[trigger] v[j].0),
                    entry_key(#[trigger] v[i].0),
                ) by {
                    if j < o0.len() {
                        assert(v[i] == entry_views(o0)[i]);
                        assert(v[j] == entry_views(o0)[j]);
                    } else {
                        assert(v[i].0 == o0[i].name@);
                        assert(v[j].0 == r0[best as int].name@);
                    }
                }
            }
            assert forall|i: int, j: int|
                0 <= i < out@.len() && 0 <= j < rest@.len() implies !bytes_lt(
                entry_key(#[trigger] rest@[j].name@),
                entry_key(#[trigger] out@[i].name@),
            ) by {
                let j0 = if j < best { j } else { j + 1 };
                assert(rest@[j] == r0[j0]);
                if i < o0.len() {
                    assert(out@[i] == o0[i]);
                } else {
                    assert(out@[i] == r0[best as int]);
                }
            }
        }
    }
    assert(entry_views(rest@).to_multiset() =~= Multiset::empty());
    assert(entry_views(out@).to_multiset().add(Multiset::empty()) =~= entry_views(
        out@,
    ).to_multiset());
    out
}

/// Nothing comes before itself.
pub proof fn lemma_bytes_lt_irreflexive(a: Seq<u8>)
    ensures
        !bytes_lt(a, a),
    decreases a.len(),
{
    if a.len() > 0 {
        lemma_bytes_lt_irreflexive(a.drop_first());
    }
}

} // verus!
