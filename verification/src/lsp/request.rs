//! The outcome of asking a language server: which server a request about a
//! file goes to, how long diagnostics are waited for, and what is answered
//! when no answer comes, and which waiting request an answer goes to.
use vstd::prelude::*;
use super::server::{for_extension, server_table, serving, LspServer, ServerView};
use super::{diag_views, Diagnostic};
use crate::json::{jv, Json, JsonValue};
use crate::table::Table;
use crate::text::{concat, decimal, decimal_string, push_str};
use super::framing::lemma_decimal;

verus! {

/// The server a request about a file with extension `ext` goes to: the
/// first that serves the extension, or the error naming it.
pub open spec fn request_server_for(ext: Seq<char>) -> Result<ServerView, Seq<char>> {
    if serving(server_table(), ext).len() > 0 {
        Ok(serving(server_table(), ext)[0])
    } else {
        Err("no LSP server for "@ + ext)
    }
}

/// The server a request about a file with extension `ext` goes to.
pub fn request_server(ext: &str) -> (r: Result<LspServer, String>)
    ensures
        match r {
            Ok(s) => request_server_for(ext@) == Ok::<ServerView, Seq<char>>(s@),
            Err(e) => request_server_for(ext@) == Err::<ServerView, Seq<char>>(e@),
        },
{
    let servers = for_extension(ext);
    if servers.len() > 0 {
        Ok(servers[0])
    } else {
        Err(concat("no LSP server for ", ext))
    }
}

/// How a request's answer came back.
pub enum Reply {
    /// The server answered.
    Answer(JsonValue),
    /// The channel the answer would come on closed.
    Closed,
    /// No answer within the time allowed.
    TimedOut,
}

/// What a request for `method` returns for each way its answer came back.
pub open spec fn reply_result(method: Seq<char>, reply: Reply) -> Result<Json, Seq<char>> {
    match reply {
        Reply::Answer(v) => Ok(jv(v)),
        Reply::Closed => Err("LSP response channel closed"@),
        Reply::TimedOut => Err("timed out waiting for "@ + method),
    }
}

/// What a request for `method` returns, given how its answer came back.
pub fn request_result(method: &str, reply: Reply) -> (r: Result<JsonValue, String>)
    ensures
        match r {
            Ok(v) => reply_result(method@, reply) == Ok::<Json, Seq<char>>(jv(v)),
            Err(e) => reply_result(method@, reply) == Err::<Json, Seq<char>>(e@),
        },
{
    match reply {
        Reply::Answer(v) => Ok(v),
        Reply::Closed => Err("LSP response channel closed".to_owned()),
        Reply::TimedOut => Err(concat("timed out waiting for ", method)),
    }
}

/// How many times the published diagnostics of a file are looked for
/// (every 100 ms) before giving up.
pub const DIAGNOSTIC_CHECKS: u32 = 600;

/// What to do after looking for a file's diagnostics.
pub enum WaitAction {
    /// The server published them.
    Found(Vec<Diagnostic>),
    /// Sleep 100 ms and look again.
    Wait,
    /// Give up.
    GiveUp,
}

/// What to do on look number `checks` (counted from 0) for a file's
/// diagnostics, given what the server has published for it.
pub fn wait_step(checks: u32, latest: Option<Vec<Diagnostic>>) -> (a: WaitAction)
    ensures
        match a {
            WaitAction::GiveUp => checks >= DIAGNOSTIC_CHECKS,
            WaitAction::Wait => checks < DIAGNOSTIC_CHECKS && latest is None,
            WaitAction::Found(d) => checks < DIAGNOSTIC_CHECKS && latest is Some && diag_views(d@)
                == diag_views(latest->0@),
        },
{
    if checks >= DIAGNOSTIC_CHECKS {
        WaitAction::GiveUp
    } else {
        match latest {
            Some(d) => WaitAction::Found(d),
            None => WaitAction::Wait,
        }
    }
}

/// The error when server `server_id` publishes no diagnostics for `path`
/// in time.
pub open spec fn diagnostics_timeout(server_id: Seq<char>, path: Seq<char>) -> Seq<char> {
    "timed out waiting for "@ + server_id + " diagnostics for "@ + path
}

/// The error when server `server_id` publishes no diagnostics for `path`
/// in time.
pub fn diagnostics_timeout_error(server_id: &str, path: &str) -> (e: String)
    ensures
        e@ == diagnostics_timeout(server_id@, path@),
{
    let mut e = concat("timed out waiting for ", server_id);
    push_str(&mut e, " diagnostics for ");
    push_str(&mut e, path);
    e
}


/// Two ids written in decimal are the same text only when they are the same.
proof fn lemma_decimal_injective(a: u64, b: u64)
    ensures
        decimal(a as nat) == decimal(b as nat) ==> a == b,
{
    lemma_decimal(a as nat);
    lemma_decimal(b as nat);
}

/// The requests sent to a server that still wait for an answer, each by
/// its id with what its answer is handed to.
pub struct PendingRequests<T> {
    table: Table<T>,
}

impl<T> View for PendingRequests<T> {
    type V = Map<u64, T>;

    closed spec fn view(&self) -> Map<u64, T> {
        Map::new(
            |id: u64| self.table.map().contains_key(decimal(id as nat)),
            |id: u64| self.table.map()[decimal(id as nat)],
        )
    }
}

impl<T> PendingRequests<T> {
    /// No request waits.
    pub fn new() -> (p: Self)
        ensures
            p@ == Map::<u64, T>::empty(),
    {
        let p = PendingRequests { table: Table::new() };
        assert(p@ =~= Map::<u64, T>::empty());
        p
    }

    /// Request `id` waits for its answer, which goes to `h` (a request
    /// already waiting under `id` is replaced).
    pub fn register(&mut self, id: u64, h: T)
        ensures
            final(self)@ == old(self)@.insert(id, h),
    {
        let key = decimal_string(id);
        let ghost k = key@;
        self.table.insert(key, h);
        proof {
            assert forall|x: u64| #[trigger] self@.contains_key(x) == old(self)@.insert(id, h).contains_key(x) by {
                lemma_decimal_injective(x, id);
            }
            assert forall|x: u64| self@.contains_key(x) implies #[trigger] self@[x] == old(self)@.insert(
                id,
                h,
            )[x] by {
                lemma_decimal_injective(x, id);
            }
            assert(self@ =~= old(self)@.insert(id, h));
        }
    }

    /// Takes request `id` off the waiting list: what its answer goes to, if
    /// it was waiting. Used both when the answer comes and when waiting for
    /// it ends.
    pub fn take(&mut self, id: u64) -> (r: Option<T>)
        ensures
            final(self)@ == old(self)@.remove(id),
            match r {
                Some(h) => old(self)@.contains_key(id) && old(self)@[id] == h,
                None => !old(self)@.contains_key(id),
            },
    {
        let key = decimal_string(id);
        let r = self.table.remove(key.as_str());
        proof {
            assert forall|x: u64| #[trigger] self@.contains_key(x) == old(self)@.remove(id).contains_key(x) by {
                lemma_decimal_injective(x, id);
            }
            assert forall|x: u64| self@.contains_key(x) implies #[trigger] self@[x] == old(self)@.remove(
                id,
            )[x] by {
                lemma_decimal_injective(x, id);
            }
            assert(self@ =~= old(self)@.remove(id));
        }
        r
    }
}

/// Answers reach the request that waits for them: an answer with id `a`
/// goes to what was registered for `a`, after which `a` no longer waits
/// (nor after waiting for it ends); and registering or taking `a` leaves
/// every other waiting request `b` as it was.
pub proof fn law_answers_reach_their_request<T>(m: Map<u64, T>, a: u64, b: u64, h: T)
    requires
        a != b,
    ensures
        m.insert(a, h).contains_key(a) && m.insert(a, h)[a] == h,
        !m.insert(a, h).remove(a).contains_key(a),
        m.insert(a, h).contains_key(b) == m.contains_key(b),
        m.remove(a).contains_key(b) == m.contains_key(b),
        m.contains_key(b) ==> m.insert(a, h)[b] == m[b] && m.remove(a)[b] == m[b],
{
}

} // verus!
