//! The polling file watcher's decisions: which files changed since the last
//! poll, which file of each language is opened first, when the language
//! servers are reconciled, and how a diagnostic is printed.
use vstd::prelude::*;
use crate::lsp::{extension_for, extension_key, Diagnostic};
use crate::table::Table;
use crate::text::{decimal, decimal_string, push_str};

verus! {

/// The word printed for an LSP severity.
pub open spec fn severity_name(s: u8) -> Seq<char> {
    if s == 0 {
        seq![]
    } else if s == 1 {
        "ERROR"@
    } else if s == 2 {
        "WARN"@
    } else if s == 3 {
        "INFO"@
    } else if s == 4 {
        "HINT"@
    } else {
        "?"@
    }
}

/// The word printed for an LSP severity: `ERROR`, `WARN`, `INFO`, `HINT`,
/// empty for 0 and `?` past 4.
pub fn severity_label(s: u8) -> (r: &'static str)
    ensures
        r@ == severity_name(s),
{
    proof {
        reveal_strlit("");
    }
    if s == 0 {
        ""
    } else if s == 1 {
        "ERROR"
    } else if s == 2 {
        "WARN"
    } else if s == 3 {
        "INFO"
    } else if s == 4 {
        "HINT"
    } else {
        "?"
    }
}

/// The line printed for a diagnostic: its severity, its 1-based line and
/// column, and its message.
pub open spec fn diagnostic_text(severity: u8, line: nat, column: nat, message: Seq<char>) -> Seq<char> {
    "  "@ + severity_name(severity) + " "@ + decimal(line + 1) + ":"@ + decimal(column + 1) + "  "@
        + message
}

/// The line the watcher prints for a diagnostic.
pub fn diagnostic_line(d: &Diagnostic) -> (r: String)
    requires
        d.line < usize::MAX,
        d.column < usize::MAX,
    ensures
        r@ == diagnostic_text(d.severity, d.line as nat, d.column as nat, d.message@),
{
    let line = decimal_string((d.line + 1) as u64);
    let column = decimal_string((d.column + 1) as u64);
    let mut r = String::new();
    push_str(&mut r, "  ");
    push_str(&mut r, severity_label(d.severity));
    push_str(&mut r, " ");
    push_str(&mut r, line.as_str());
    push_str(&mut r, ":");
    push_str(&mut r, column.as_str());
    push_str(&mut r, "  ");
    push_str(&mut r, d.message.as_str());
    r
}

/// How many polls pass between two reconciliations of the language servers.
pub const RECONCILE_EVERY: u64 = 300;

/// The watcher's poll counter.
pub struct WatchClock {
    ticks: u64,
}

impl WatchClock {
    /// The number of polls so far.
    pub closed spec fn count(self) -> nat {
        self.ticks as nat
    }

    /// A clock that has not ticked.
    pub fn new() -> (c: Self)
        ensures
            c.count() == 0,
    {
        WatchClock { ticks: 0 }
    }

    /// The number of polls so far.
    pub fn ticks(&self) -> (n: u64)
        ensures
            n == self.count(),
    {
        self.ticks
    }

    /// Counts one poll and says whether the language servers are reconciled
    /// on it: on every 300th poll.
    pub fn tick(&mut self) -> (reconcile: bool)
        requires
            old(self).count() < u64::MAX,
        ensures
            final(self).count() == old(self).count() + 1,
            reconcile == (final(self).count() % (RECONCILE_EVERY as nat) == 0),
    {
        self.ticks = self.ticks + 1;
        self.ticks % RECONCILE_EVERY == 0
    }
}

/// A clock reconciles on a poll exactly when the number of polls so far is
/// a multiple of 300, so never on the first 299 and again 300 polls after
/// each time it did.
pub proof fn law_reconcile_period(n: nat)
    ensures
        (n + 1) % (RECONCILE_EVERY as nat) == 0 <==> (n + 1 + RECONCILE_EVERY as nat) % (RECONCILE_EVERY as nat) == 0,
        1 <= n + 1 < RECONCILE_EVERY ==> (n + 1) % (RECONCILE_EVERY as nat) != 0,
{
}

/// The last modification time seen of each file, in nanoseconds since the
/// epoch.
pub struct MtimeCache {
    times: Table<u128>,
}

impl View for MtimeCache {
    type V = Map<Seq<char>, u128>;

    closed spec fn view(&self) -> Map<Seq<char>, u128> {
        self.times.map()
    }
}

/// Whether seeing `path` at `mtime` reports a change: only a file seen
/// before, at another time.
pub open spec fn is_change(seen: Map<Seq<char>, u128>, path: Seq<char>, mtime: u128) -> bool {
    seen.contains_key(path) && seen[path] != mtime
}

/// The paths reported, in order, when `files` are seen one after the other
/// starting from `seen`.
pub open spec fn changes_from(seen: Map<Seq<char>, u128>, files: Seq<(Seq<char>, u128)>) -> Seq<Seq<char>>
    decreases files.len(),
{
    if files.len() == 0 {
        seq![]
    } else {
        let (p, t) = files[0];
        let rest = changes_from(seen.insert(p, t), files.drop_first());
        if is_change(seen, p, t) {
            seq![p] + rest
        } else {
            rest
        }
    }
}

/// What is remembered after `files` are seen one after the other starting
/// from `seen`.
pub open spec fn seen_after(seen: Map<Seq<char>, u128>, files: Seq<(Seq<char>, u128)>) -> Map<Seq<char>, u128>
    decreases files.len(),
{
    if files.len() == 0 {
        seen
    } else {
        seen_after(seen.insert(files[0].0, files[0].1), files.drop_first())
    }
}

impl MtimeCache {
    /// A cache that has seen no file.
    pub fn new() -> (c: Self)
        ensures
            c@ == Map::<Seq<char>, u128>::empty(),
    {
        MtimeCache { times: Table::new() }
    }

    /// The time last seen for `path`.
    pub fn get(&self, path: &str) -> (r: Option<u128>)
        ensures
            match r {
                Some(t) => self@.contains_key(path@) && self@[path@] == t,
                None => !self@.contains_key(path@),
            },
    {
        match self.times.get(path) {
            Some(t) => Some(*t),
            None => None,
        }
    }

    /// Notes that `path` was modified at `mtime`, and says whether that is a
    /// change: the file was seen before at another time. A file seen for
    /// the first time is remembered but not reported.
    pub fn observe(&mut self, path: String, mtime: u128) -> (changed: bool)
        ensures
            final(self)@ == old(self)@.insert(path@, mtime),
            changed == is_change(old(self)@, path@, mtime),
    {
        match self.times.get(path.as_str()) {
            Some(prev) => {
                if *prev != mtime {
                    self.times.insert(path, mtime);
                    true
                } else {
                    assert(old(self)@.insert(path@, mtime) =~= old(self)@);
                    false
                }
            },
            None => {
                self.times.insert(path, mtime);
                false
            },
        }
    }
}

/// One poll: notes the modification time of each file found, in the order
/// found, and returns the files that changed since they were last seen.
pub fn detect_changes(cache: &mut MtimeCache, files: &Vec<(String, u128)>) -> (changed: Vec<String>)
    ensures
        final(cache)@ == seen_after(old(cache)@, files@.map_values(|f: (String, u128)| (f.0@, f.1))),
        changed@.map_values(|s: String| s@) == changes_from(
            old(cache)@,
            files@.map_values(|f: (String, u128)| (f.0@, f.1)),
        ),
{
    let ghost fv = files@.map_values(|f: (String, u128)| (f.0@, f.1));
    let ghost start = cache@;
    let mut changed: Vec<String> = Vec::new();
    let mut i: usize = 0;
    assert(fv.subrange(0, fv.len() as int) =~= fv);
    assert(changed@.map_values(|s: String| s@) + changes_from(cache@, fv) =~= changes_from(cache@, fv));
    while i < files.len()
        invariant
            i <= files@.len(),
            fv == files@.map_values(|f: (String, u128)| (f.0@, f.1)),
            seen_after(start, fv) == seen_after(cache@, fv.subrange(i as int, fv.len() as int)),
            changes_from(start, fv) == changed@.map_values(|s: String| s@) + changes_from(
                cache@,
                fv.subrange(i as int, fv.len() as int),
            ),
        decreases files@.len() - i,
    {
        let ghost rest = fv.subrange(i as int, fv.len() as int);
        let path = files[i].0.clone();
        let mtime = files[i].1;
        assert(rest[0] == (path@, mtime));
        assert(rest.drop_first() =~= fv.subrange(i + 1, fv.len() as int));
        let ghost pv = path@;
        let ghost old_changed = changed@.map_values(|s: String| s@);
        if cache.observe(path.clone(), mtime) {
            changed.push(path);
            assert(changed@.map_values(|s: String| s@) =~= old_changed.push(pv));
            assert(old_changed + (seq![pv] + changes_from(cache@, rest.drop_first())) =~= old_changed.push(pv)
                + changes_from(cache@, rest.drop_first()));
        } else {
            assert(changed@.map_values(|s: String| s@) =~= old_changed);
        }
        i += 1;
    }
    assert(fv.subrange(i as int, fv.len() as int) =~= Seq::<(Seq<char>, u128)>::empty());
    assert(changed@.map_values(|s: String| s@) + changes_from(cache@, Seq::empty()) =~= changed@.map_values(
        |s: String| s@,
    ));
    changed
}

/// A file seen for the first time is never reported as changed, and one
/// seen again at the same time is not reported either: only a new
/// modification time of a known file is.
pub proof fn law_only_known_files_change(seen: Map<Seq<char>, u128>, path: Seq<char>, t: u128, u: u128)
    ensures
        !seen.contains_key(path) ==> !is_change(seen, path, t),
        !is_change(seen.insert(path, t), path, t),
        is_change(seen.insert(path, t), path, u) <==> t != u,
{
}

/// The extensions already given a sample, and the samples in order: the
/// first file found of each extension.
pub open spec fn samples_from(exts: Seq<Seq<char>>, paths: Seq<Seq<char>>) -> Seq<(Seq<char>, Seq<char>)>
    decreases paths.len(),
{
    if paths.len() == 0 {
        seq![]
    } else {
        let e = extension_key(paths[0]);
        if exts.contains(e) {
            samples_from(exts, paths.drop_first())
        } else {
            seq![(e, paths[0])] + samples_from(exts.push(e), paths.drop_first())
        }
    }
}

/// The files found of which a modification time could be read.
pub open spec fn timed(files: Seq<(Seq<char>, Option<u128>)>) -> Seq<(Seq<char>, u128)>
    decreases files.len(),
{
    if files.len() == 0 {
        seq![]
    } else {
        let rest = timed(files.drop_first());
        match files[0].1 {
            Some(t) => seq![(files[0].0, t)] + rest,
            None => rest,
        }
    }
}

/// The first scan of the workspace: remembers the modification time of
/// every file that has one, and picks the first file found of each
/// extension (the empty one too) to start its language server with.
pub fn initial_scan(files: &Vec<(String, Option<u128>)>) -> (r: (MtimeCache, Vec<(String, String)>))
    ensures
        r.0@ == seen_after(
            Map::empty(),
            timed(files@.map_values(|f: (String, Option<u128>)| (f.0@, f.1))),
        ),
        r.1@.map_values(|s: (String, String)| (s.0@, s.1@)) == samples_from(
            seq![],
            files@.map_values(|f: (String, Option<u128>)| f.0@),
        ),
{
    let ghost fv = files@.map_values(|f: (String, Option<u128>)| (f.0@, f.1));
    let ghost pv = files@.map_values(|f: (String, Option<u128>)| f.0@);
    let mut cache = MtimeCache::new();
    let mut exts: Vec<String> = Vec::new();
    let mut samples: Vec<(String, String)> = Vec::new();
    let mut i: usize = 0;
    assert(fv.subrange(0, fv.len() as int) =~= fv);
    assert(pv.subrange(0, pv.len() as int) =~= pv);
    assert(exts@.map_values(|s: String| s@) =~= Seq::<Seq<char>>::empty());
    assert(samples@.map_values(|s: (String, String)| (s.0@, s.1@)) + samples_from(seq![], pv) =~= samples_from(
        seq![],
        pv,
    ));
    while i < files.len()
        invariant
            i <= files@.len(),
            fv == files@.map_values(|f: (String, Option<u128>)| (f.0@, f.1)),
            pv == files@.map_values(|f: (String, Option<u128>)| f.0@),
            seen_after(Map::empty(), timed(fv)) == seen_after(
                cache@,
                timed(fv.subrange(i as int, fv.len() as int)),
            ),
            samples_from(seq![], pv) == samples@.map_values(|s: (String, String)| (s.0@, s.1@))
                + samples_from(exts@.map_values(|s: String| s@), pv.subrange(i as int, pv.len() as int)),
        decreases files@.len() - i,
    {
        let ghost rest = fv.subrange(i as int, fv.len() as int);
        let ghost prest = pv.subrange(i as int, pv.len() as int);
        assert(rest.drop_first() =~= fv.subrange(i + 1, fv.len() as int));
        assert(prest.drop_first() =~= pv.subrange(i + 1, pv.len() as int));
        assert(rest[0] == fv[i as int]);
        let path = &files[i].0;
        match files[i].1 {
            Some(t) => {
                let ghost tr = timed(rest.drop_first());
                assert((seq![(path@, t)] + tr).drop_first() =~= tr);
                cache.observe(path.clone(), t);
            },
            None => {},
        }
        let ext = extension_for(path.as_str());
        let ghost ev = exts@.map_values(|s: String| s@);
        let ghost sv = samples@.map_values(|s: (String, String)| (s.0@, s.1@));
        assert(prest[0] == path@);
        if !contains_ext(&exts, ext.as_str()) {
            samples.push((ext.clone(), path.clone()));
            exts.push(ext);
            assert(exts@.map_values(|s: String| s@) =~= ev.push(extension_key(path@)));
            assert(samples@.map_values(|s: (String, String)| (s.0@, s.1@)) =~= sv.push(
                (extension_key(path@), path@),
            ));
            assert(sv + (seq![(extension_key(path@), path@)] + samples_from(
                ev.push(extension_key(path@)),
                prest.drop_first(),
            )) =~= sv.push((extension_key(path@), path@)) + samples_from(
                ev.push(extension_key(path@)),
                prest.drop_first(),
            ));
        }
        i += 1;
    }
    assert(fv.subrange(i as int, fv.len() as int) =~= Seq::<(Seq<char>, Option<u128>)>::empty());
    assert(pv.subrange(i as int, pv.len() as int) =~= Seq::<Seq<char>>::empty());
    assert(samples@.map_values(|s: (String, String)| (s.0@, s.1@)) + Seq::empty() =~= samples@.map_values(
        |s: (String, String)| (s.0@, s.1@),
    ));
    (cache, samples)
}

/// Whether `ext` is among `exts`.
fn contains_ext(exts: &Vec<String>, ext: &str) -> (r: bool)
    ensures
        r == exts@.map_values(|s: String| s@).contains(ext@),
{
    let mut i: usize = 0;
    while i < exts.len()
        invariant
            i <= exts@.len(),
            forall|j: int| 0 <= j < i ==> exts@[j]@ != ext@,
        decreases exts@.len() - i,
    {
        if crate::text::str_eq(exts[i].as_str(), ext) {
            assert(exts@.map_values(|s: String| s@)[i as int] == ext@);
            return true;
        }
        i += 1;
    }
    proof {
        if exts@.map_values(|s: String| s@).contains(ext@) {
            let ev = exts@.map_values(|s: String| s@);
            let j = choose|j: int| 0 <= j < ev.len() && #[trigger] ev[j] == ext@;
            assert(exts@[j]@ == ext@);
        }
    }
    false
}

} // verus!
