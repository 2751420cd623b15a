//! The server: many clients reconciled against one authoritative document.

use vstd::prelude::*;

use crate::diff::{
    diff, diff_spec, lemma_diff_empty_iff_equal, patch, patch_text, EditList, EditView,
};
use crate::document::Document;
use crate::protocol::SyncMessage;
use crate::store::{default_content, default_name, DocumentStore, MemoryStore};
use crate::sync::SyncEngine;

verus! {

/// A connected client as the server sees it: its name, an engine holding the
/// server's copy of the client's shadow, and when it was last heard from (in
/// milliseconds since the Unix epoch).
#[derive(Debug)]
pub struct ClientSession {
    pub client_id: String,
    pub sync_engine: SyncEngine,
    pub last_seen: u64,
}

/// Relies on `SystemTime::elapsed`, called on `UNIX_EPOCH`: the wall clock's
/// milliseconds since the Unix epoch, of which nothing is known; 0 for a clock
/// set before the epoch.
#[verifier::external_body]
fn now_millis() -> (r: u64) {
    match std::time::UNIX_EPOCH.elapsed() {
        Ok(d) => d.as_millis() as u64,
        Err(_) => 0,
    }
}

/// `a`, `b` and `c` one after the other.
fn join3(a: &str, b: &str, c: &str) -> (r: String)
    ensures
        r@ == a@ + b@ + c@,
{
    let mut r = a.to_owned();
    r.append(b);
    r.append(c);
    r
}

/// `a` followed by `b`.
fn join2(a: &str, b: &str) -> (r: String)
    ensures
        r@ == a@ + b@,
{
    let mut r = a.to_owned();
    r.append(b);
    r
}

/// Whether `m` begins with `p`.
pub open spec fn starts_with(m: Seq<char>, p: Seq<char>) -> bool {
    p.len() <= m.len() && m.take(p.len() as int) == p
}

/// The server's copy of a client's shadow `sdoc` once the client's edits
/// `ops` are applied to it (meaningful where that patch succeeds).
pub open spec fn patched_copy(sdoc: Seq<char>, ops: Seq<EditView>) -> Seq<char> {
    if ops.len() == 0 {
        sdoc
    } else {
        patch_text(sdoc, ops)->Some_0
    }
}

impl ClientSession {
    /// The part of a round that follows the store: the session is seen at
    /// `now`, the client's edits are applied to the server's copy of its
    /// shadow, and the reply is the diff from that copy to `current`, which
    /// the copy then takes on.
    ///
    /// Fails, leaving the engine as it was, exactly where the edits cannot be
    /// patched onto the copy.
    pub fn finish_round(&mut self, current: &Document, client_edits: &EditList, now: u64) -> (r:
        Result<EditList, String>)
        requires
            old(self).sync_engine.shadow.content@ == old(self).sync_engine.document.content@,
            old(self).sync_engine.shadow.version == old(self).sync_engine.document.version,
            old(self).sync_engine.document.version < u64::MAX - 1,
        ensures
            final(self).client_id == old(self).client_id,
            final(self).last_seen == now,
            final(self).sync_engine.shadow.content@ == final(self).sync_engine.document.content@,
            final(self).sync_engine.shadow.version == final(self).sync_engine.document.version,
            r is Ok <==> (client_edits.ops().len() == 0 || patch_text(
                old(self).sync_engine.document.content@,
                client_edits.ops(),
            ) is Some),
            r matches Ok(reply) ==> reply.ops() == diff_spec(
                patched_copy(old(self).sync_engine.document.content@, client_edits.ops()),
                current.content@,
            ) && final(self).sync_engine.document.content@ == current.content@,
            r matches Err(m) ==> m@ == "Failed to apply client edits to shadow: "@
                + "Invalid position"@ && final(self).sync_engine == old(self).sync_engine,
    {
        self.last_seen = now;
        if !client_edits.is_empty() {
            if let Err(e) = self.sync_engine.apply_edits(client_edits.clone()) {
                return Err(join2("Failed to apply client edits to shadow: ", e.message().as_str()));
            }
        }
        let ghost copy = self.sync_engine.document.content@;
        let server_edits = diff(self.sync_engine.text(), current.content.as_str());
        if !server_edits.is_empty() {
            self.sync_engine.edit(current.content.as_str());
            let _sent = self.sync_engine.diff_and_update_shadow();
        }
        proof {
            lemma_diff_empty_iff_equal(copy, current.content@);
        }
        Ok(server_edits)
    }

    /// A session for `client_id` whose engine holds `initial_content`, seen at `now`.
    pub fn new_at(client_id: String, initial_content: String, now: u64) -> (r: Self)
        ensures
            r.client_id == client_id,
            r.sync_engine.document.content@ == initial_content@,
            r.sync_engine.shadow.content@ == initial_content@,
            r.sync_engine.shadow.version == 0,
            r.sync_engine.document.version == 0,
            r.sync_engine.node_id == client_id,
            r.last_seen == now,
    {
        let mut engine = SyncEngine::new(initial_content);
        engine.node_id = client_id.clone();
        ClientSession { client_id, sync_engine: engine, last_seen: now }
    }

    /// A session for `client_id` whose engine holds `initial_content`, seen now.
    pub fn new(client_id: String, initial_content: String) -> (r: Self)
        ensures
            r.client_id == client_id,
            r.sync_engine.document.content@ == initial_content@,
            r.sync_engine.shadow.content@ == initial_content@,
            r.sync_engine.shadow.version == 0,
            r.sync_engine.document.version == 0,
            r.sync_engine.node_id == client_id,
    {
        Self::new_at(client_id, initial_content, now_millis())
    }
}

/// The outcome of one client's round against the authoritative content `d`,
/// where the server's copy of the client's shadow is `sdoc` and the client
/// sent `ops`: the new authoritative content, the new copy of the client's
/// shadow, and the edits sent back. `None` where the edits cannot be patched
/// onto either text.
pub open spec fn server_round(d: Seq<char>, sdoc: Seq<char>, ops: Seq<EditView>) -> Option<
    (Seq<char>, Seq<char>, Seq<EditView>),
> {
    if ops.len() == 0 {
        Some((d, d, diff_spec(sdoc, d)))
    } else {
        match (patch_text(d, ops), patch_text(sdoc, ops)) {
            (Some(nd), Some(ns)) => Some((nd, nd, diff_spec(ns, nd))),
            _ => None,
        }
    }
}

/// Whether a session has not been heard from for more than `timeout_secs` at `now`.
pub open spec fn is_stale(s: ClientSession, timeout_secs: u64, now: u64) -> bool {
    now > s.last_seen && now - s.last_seen > timeout_secs * 1000
}

/// The sessions of `s` that are not stale, in order.
pub open spec fn fresh_sessions(s: Seq<ClientSession>, timeout_secs: u64, now: u64) -> Seq<
    ClientSession,
>
    decreases s.len(),
{
    if s.len() == 0 {
        s
    } else if is_stale(s.last(), timeout_secs, now) {
        fresh_sessions(s.drop_last(), timeout_secs, now)
    } else {
        fresh_sessions(s.drop_last(), timeout_secs, now).push(s.last())
    }
}

/// Whether `age_millis` exceeds `timeout_secs` seconds.
fn older_than(age_millis: u64, timeout_secs: u64) -> (r: bool)
    ensures
        r == (age_millis > timeout_secs * 1000),
{
    if timeout_secs > u64::MAX / 1000 {
        assert(timeout_secs * 1000 > u64::MAX) by (nonlinear_arith)
            requires
                timeout_secs > u64::MAX / 1000,
        ;
        false
    } else {
        assert(timeout_secs * 1000 <= u64::MAX) by (nonlinear_arith)
            requires
                timeout_secs <= u64::MAX / 1000,
        ;
        age_millis > timeout_secs * 1000
    }
}

/// Removing the session at `i` keeps names unique and engines consistent.
proof fn lemma_remove_keeps_wf(s: Seq<ClientSession>, i: int)
    requires
        sessions_wf(s),
        0 <= i < s.len(),
    ensures
        sessions_wf(s.remove(i)),
{
    let t = s.remove(i);
    assert forall|a: int, b: int| 0 <= a < b < t.len() implies (#[trigger] t[a]).client_id@ != (
    #[trigger] t[b]).client_id@ by {
        let a0 = if a < i {
            a
        } else {
            a + 1
        };
        let b0 = if b < i {
            b
        } else {
            b + 1
        };
        assert(t[a] == s[a0]);
        assert(t[b] == s[b0]);
    }
    assert forall|k: int| 0 <= k < t.len() implies (#[trigger] t[k]).sync_engine.shadow.content@
        == t[k].sync_engine.document.content@ && t[k].sync_engine.shadow.version
        == t[k].sync_engine.document.version by {
        if k < i {
            assert(t[k] == s[k]);
        } else {
            assert(t[k] == s[k + 1]);
        }
    }
}

/// Keeping the fresh sessions of two sequences one after the other.
proof fn lemma_fresh_concat(a: Seq<ClientSession>, b: Seq<ClientSession>, timeout_secs: u64, now: u64)
    ensures
        fresh_sessions(a + b, timeout_secs, now) == fresh_sessions(a, timeout_secs, now)
            + fresh_sessions(b, timeout_secs, now),
    decreases b.len(),
{
    if b.len() == 0 {
        assert(a + b =~= a);
        assert(fresh_sessions(a, timeout_secs, now) + fresh_sessions(b, timeout_secs, now)
            =~= fresh_sessions(a, timeout_secs, now));
    } else {
        assert((a + b).drop_last() =~= a + b.drop_last());
        assert((a + b).last() == b.last());
        lemma_fresh_concat(a, b.drop_last(), timeout_secs, now);
        if !is_stale(b.last(), timeout_secs, now) {
            assert(fresh_sessions(a, timeout_secs, now) + fresh_sessions(
                b.drop_last(),
                timeout_secs,
                now,
            ).push(b.last()) =~= (fresh_sessions(a, timeout_secs, now) + fresh_sessions(
                b.drop_last(),
                timeout_secs,
                now,
            )).push(b.last()));
        }
    }
}

/// Whether some session of `clients` belongs to `id`.
pub open spec fn has_client(clients: Seq<ClientSession>, id: Seq<char>) -> bool {
    exists|i: int| 0 <= i < clients.len() && (#[trigger] clients[i]).client_id@ == id
}

/// Client names are unique, and each session's engine keeps its shadow equal
/// to its document.
pub open spec fn sessions_wf(clients: Seq<ClientSession>) -> bool {
    &&& forall|i: int, j: int|
        0 <= i < j < clients.len() ==> (#[trigger] clients[i]).client_id@ != (
        #[trigger] clients[j]).client_id@
    &&& forall|i: int|
        0 <= i < clients.len() ==> (#[trigger] clients[i]).sync_engine.shadow.content@
            == clients[i].sync_engine.document.content@ && clients[i].sync_engine.shadow.version
            == clients[i].sync_engine.document.version
}

/// Whether `after` is `before` once the session at index `i` has completed a
/// round in which the client sent `ops`, seen at `now`, and `reply` went back.
#[verifier::opaque]
pub open spec fn round_done<S: DocumentStore>(
    before: &SyncServer<S>,
    after: &SyncServer<S>,
    i: int,
    ops: Seq<EditView>,
    reply: Seq<EditView>,
    now: u64,
) -> bool {
    match before.authoritative() {
        Some(prev) => match server_round(
            prev.0,
            before.clients@[i].sync_engine.document.content@,
            ops,
        ) {
            Some(res) => {
                &&& reply == res.2
                &&& after.document_name == before.document_name
                &&& after.clients@.len() == before.clients@.len()
                &&& after.clients@[i].client_id == before.clients@[i].client_id
                &&& after.clients@[i].sync_engine.document.content@ == res.1
                &&& after.clients@[i].last_seen == now
                &&& forall|j: int|
                    0 <= j < before.clients@.len() && j != i ==> after.clients@[j]
                        == before.clients@[j]
                &&& if ops.len() > 0 {
                    &&& after.authoritative() matches Some(cur) && cur.0 == res.0 && cur.1
                        == prev.1 + 1
                    &&& after.version == before.version + 1
                } else {
                    &&& after.db == before.db
                    &&& after.version == before.version
                }
            },
            None => false,
        },
        None => false,
    }
}

/// The index of the session of `id` (meaningful where there is one).
pub open spec fn client_index(clients: Seq<ClientSession>, id: Seq<char>) -> int {
    choose|i: int| 0 <= i < clients.len() && (#[trigger] clients[i]).client_id@ == id
}

/// The error for a round whose session or server counters are spent.
pub open spec fn exhausted_message(id: Seq<char>) -> Seq<char> {
    "Client "@ + id + " has exhausted its version counter"@
}

/// Whether the round of session `i` would overflow a version counter.
pub open spec fn counters_spent<S: DocumentStore>(s: &SyncServer<S>, i: int, ops: Seq<EditView>) -> bool {
    s.clients@[i].sync_engine.document.version >= u64::MAX - 1 || (ops.len() > 0 && s.version
        == u64::MAX)
}

/// The store holds the same documents, and is as reliable, in `b` as in `a`.
pub open spec fn store_kept<S: DocumentStore>(a: &S, b: &S) -> bool {
    &&& b.reliable() == a.reliable()
    &&& forall|n: String| #[trigger] b.stored(n) == a.stored(n)
}

/// Nothing that a round can change has changed from `before` to `after`.
pub open spec fn unchanged<S: DocumentStore>(before: &SyncServer<S>, after: &SyncServer<S>) -> bool {
    &&& after.clients == before.clients
    &&& after.version == before.version
    &&& after.document_name == before.document_name
    &&& store_kept(&before.db, &after.db)
}

/// The round of session `i` saved the client's edits in the store, but could
/// not apply them to the server's copy of the client's shadow.
pub open spec fn shadow_failed<S: DocumentStore>(
    before: &SyncServer<S>,
    after: &SyncServer<S>,
    i: int,
    ops: Seq<EditView>,
    now: u64,
) -> bool {
    &&& ops.len() > 0
    &&& patch_text(before.clients@[i].sync_engine.document.content@, ops) is None
    &&& before.authoritative() matches Some(prev) && patch_text(prev.0, ops) matches Some(nd)
        && after.authoritative() matches Some(cur) && cur.0 == nd && cur.1 == prev.1 + 1
    &&& after.version == before.version + 1
    &&& after.document_name == before.document_name
    &&& after.clients@.len() == before.clients@.len()
    &&& after.clients@[i].sync_engine == before.clients@[i].sync_engine
    &&& after.clients@[i].client_id == before.clients@[i].client_id
    &&& after.clients@[i].last_seen == now
    &&& forall|j: int|
        0 <= j < before.clients@.len() && j != i ==> after.clients@[j] == before.clients@[j]
}

/// What a round of client `id` that sent `ops`, seen at `now`, does, given
/// its outcome (the reply's edits, or the error's text).
pub open spec fn round_contract<S: DocumentStore>(
    before: &SyncServer<S>,
    after: &SyncServer<S>,
    id: Seq<char>,
    ops: Seq<EditView>,
    outcome: Result<Seq<EditView>, Seq<char>>,
    now: u64,
) -> bool {
    let known = has_client(before.clients@, id);
    let i = client_index(before.clients@, id);
    &&& !known ==> outcome == Err::<Seq<EditView>, Seq<char>>("Client "@ + id + " not found"@)
        && unchanged(before, after)
    &&& (outcome == Err::<Seq<EditView>, Seq<char>>(exhausted_message(id))) <==> (known
        && counters_spent(before, i, ops))
    &&& known && counters_spent(before, i, ops) ==> unchanged(before, after)
    &&& outcome matches Ok(reply) ==> known && round_done(before, after, i, ops, reply, now)
    &&& known && outcome is Err ==> unchanged(before, after) || shadow_failed(
        before,
        after,
        i,
        ops,
        now,
    )
    &&& known && before.db.reliable() && !counters_spent(before, i, ops) && (
    before.authoritative() matches Some(prev) && server_round(
        prev.0,
        before.clients@[i].sync_engine.document.content@,
        ops,
    ) is Some && (ops.len() > 0 ==> prev.1 < u64::MAX)) ==> outcome is Ok
}

/// `round_contract` at some time.
pub open spec fn round_contract_some_time<S: DocumentStore>(
    before: &SyncServer<S>,
    after: &SyncServer<S>,
    id: Seq<char>,
    ops: Seq<EditView>,
    outcome: Result<Seq<EditView>, Seq<char>>,
) -> bool {
    exists|now: u64| #[trigger] round_contract(before, after, id, ops, outcome, now)
}

/// The reply's edits, or the error's text.
pub open spec fn outcome_of(r: Result<EditList, String>) -> Result<Seq<EditView>, Seq<char>> {
    match r {
        Ok(e) => Ok(e.ops()),
        Err(m) => Err(m@),
    }
}

/// What accepting `client_id` does, given its result: a name already in use
/// is refused, a spent activity counter or a failed load fail, and each
/// failure changes nothing; success adds a session holding the stored
/// document, named after the client. With a reliable store, a free name, room
/// in the counter and a stored document, it succeeds.
pub open spec fn connect_contract<S: DocumentStore>(
    before: &SyncServer<S>,
    after: &SyncServer<S>,
    client_id: String,
    r: Result<Document, String>,
) -> bool {
    let known = has_client(before.clients@, client_id@);
    &&& after.db == before.db
    &&& after.document_name == before.document_name
    &&& known ==> (r matches Err(m) && m@ == "Client "@ + client_id@ + " already connected"@)
    &&& !known && before.version == u64::MAX ==> (r matches Err(m) && m@
        == "Server version counter is exhausted"@)
    &&& before.authoritative() is None ==> r is Err
    &&& before.db.reliable() && !known && before.version < u64::MAX
        && before.authoritative() is Some ==> r is Ok
    &&& r is Err ==> after.clients == before.clients && after.version == before.version
    &&& r matches Ok(d) ==> {
        &&& !known
        &&& before.db.stored(before.document_name) == Some(d)
        &&& after.clients@.len() == before.clients@.len() + 1
        &&& after.clients@.drop_last() == before.clients@
        &&& after.clients@.last().client_id == client_id
        &&& after.clients@.last().sync_engine.document.content@ == d.content@
        &&& after.clients@.last().sync_engine.shadow.content@ == d.content@
        &&& after.clients@.last().sync_engine.node_id == client_id
        &&& after.clients@.last().sync_engine.document.version == 0
        &&& after.clients@.last().sync_engine.shadow.version == 0
        &&& has_client(after.clients@, client_id@)
        &&& client_index(after.clients@, client_id@) == after.clients@.len() - 1
        &&& after.version == before.version + 1
    }
}

/// The edits of a `ServerSync` reply, or the text of an `Error` reply.
pub open spec fn reply_outcome(r: Option<SyncMessage>) -> Result<Seq<EditView>, Seq<char>> {
    match r {
        Some(SyncMessage::ServerSync { edits, .. }) => Ok(edits.ops()),
        Some(SyncMessage::Error { message }) => Err(message@),
        _ => Err(Seq::empty()),
    }
}

/// Sessions with unique names have one index per name.
proof fn lemma_client_index(clients: Seq<ClientSession>, id: Seq<char>, i: int)
    requires
        sessions_wf(clients),
        0 <= i < clients.len(),
        clients[i].client_id@ == id,
    ensures
        client_index(clients, id) == i,
{
    let j = client_index(clients, id);
    if j != i {
        if j < i {
            assert(clients[j].client_id@ != clients[i].client_id@);
        } else {
            assert(clients[i].client_id@ != clients[j].client_id@);
        }
    }
}

/// A text whose first character is not `C` is not the exhaustion error.
proof fn lemma_not_exhausted(m: Seq<char>, p: Seq<char>, id: Seq<char>)
    requires
        starts_with(m, p),
        p.len() > 0,
        p[0] != 'C',
    ensures
        m != exhausted_message(id),
{
    reveal_strlit("Client ");
    assert(m[0] == p[0]);
    assert(exhausted_message(id)[0] == 'C');
}

/// The server state: the store, the name of the one document it serves, the
/// connected clients, and an activity counter.
pub struct SyncServer<S: DocumentStore> {
    pub db: S,
    pub document_name: String,
    pub clients: Vec<ClientSession>,
    pub version: u64,
}

impl<S: DocumentStore> SyncServer<S> {
    pub open spec fn wf(&self) -> bool {
        sessions_wf(self.clients@)
    }

    /// The content and version of the served document in the store.
    pub open spec fn authoritative(&self) -> Option<(Seq<char>, u64)> {
        match self.db.stored(self.document_name) {
            Some(d) => Some((d.content@, d.version)),
            None => None,
        }
    }

    /// A server over `db`, serving `document_name`, with no clients.
    pub fn new_with_db(db: S, document_name: String) -> (r: Result<Self, String>)
        ensures
            r matches Ok(s) && s.db == db && s.document_name == document_name
                && s.clients@.len() == 0 && s.version == 0 && s.wf(),
    {
        Ok(SyncServer { db, document_name, clients: Vec::new(), version: 0 })
    }

    /// The served document as the store holds it now.
    pub fn get_current_document(&self) -> (r: Result<Document, String>)
        ensures
            r matches Ok(d) ==> self.db.stored(self.document_name) == Some(d),
            r matches Ok(d) ==> self.authoritative() == Some((d.content@, d.version)),
            self.authoritative() is None ==> r is Err,
            self.db.reliable() && self.authoritative() is Some ==> r is Ok,
            r matches Err(m) ==> m@ == "Document '"@ + self.document_name@ + "' not found"@
                || starts_with(m@, "Database error: "@),
    {
        match self.db.load(&self.document_name) {
            Ok(Some(d)) => Ok(d),
            Ok(None) => Err(join3("Document '", self.document_name.as_str(), "' not found")),
            Err(e) => {
                let m = join2("Database error: ", e.as_str());
                assert(m@.take("Database error: "@.len() as int) =~= "Database error: "@);
                Err(m)
            },
        }
    }

    /// The content of the served document as the store holds it now.
    pub fn get_document_content(&self) -> (r: Result<String, String>)
        ensures
            r matches Ok(c) ==> self.authoritative() matches Some(a) && a.0 == c@,
            self.authoritative() is None ==> r is Err,
    {
        let doc = self.get_current_document()?;
        Ok(doc.content)
    }

    /// The index of the session of `client_id`.
    fn find_client(&self, client_id: &str) -> (r: Option<usize>)
        ensures
            match r {
                Some(i) => i < self.clients@.len() && self.clients@[i as int].client_id@
                    == client_id@,
                None => !has_client(self.clients@, client_id@),
            },
    {
        let key = client_id.to_owned();
        let mut i: usize = 0;
        while i < self.clients.len()
            invariant
                i <= self.clients@.len(),
                key@ == client_id@,
                forall|k: int| 0 <= k < i ==> (#[trigger] self.clients@[k]).client_id@ != client_id@,
            decreases self.clients@.len() - i,
        {
            if self.clients[i].client_id == key {
                return Some(i);
            }
            i += 1;
        }
        None
    }

    /// Accepts `client_id`, seen at `now`, and hands it the served document.
    ///
    /// Refuses a name that is already connected, and fails, changing nothing,
    /// where the document cannot be loaded or the activity counter is spent.
    pub fn connect_client_at(&mut self, client_id: String, now: u64) -> (r: Result<
        Document,
        String,
    >)
        requires
            old(self).wf(),
        ensures
            final(self).wf(),
            connect_contract(old(self), final(self), client_id, r),
            r is Ok ==> final(self).clients@.last().last_seen == now,
    {
        if self.find_client(client_id.as_str()).is_some() {
            return Err(join3("Client ", client_id.as_str(), " already connected"));
        }
        if self.version == u64::MAX {
            return Err("Server version counter is exhausted".to_owned());
        }
        let current_doc = self.get_current_document()?;
        let session = ClientSession::new_at(client_id, current_doc.content.clone(), now);
        let ghost old_clients = self.clients@;
        self.clients.push(session);
        self.version = self.version + 1;
        proof {
            assert(self.clients@.drop_last() =~= old_clients);
            assert forall|i: int, j: int|
                0 <= i < j < self.clients@.len() implies (#[trigger] self.clients@[i]).client_id@
                != (#[trigger] self.clients@[j]).client_id@ by {
                if j == self.clients@.len() - 1 {
                    assert(old_clients[i] == self.clients@[i]);
                }
            }
            lemma_client_index(self.clients@, client_id@, self.clients@.len() - 1);
        }
        Ok(current_doc)
    }

    /// Accepts `client_id`, seen now; see `connect_client_at`.
    pub fn connect_client(&mut self, client_id: String) -> (r: Result<Document, String>)
        requires
            old(self).wf(),
        ensures
            final(self).wf(),
            connect_contract(old(self), final(self), client_id, r),
    {
        let now = now_millis();
        self.connect_client_at(client_id, now)
    }
}


impl<S: DocumentStore> SyncServer<S> {
    /// One round with `client_id`, seen at `now`: its edits are patched onto
    /// the stored document and saved, then onto the server's copy of its
    /// shadow; the reply is the diff from that copy to the stored document,
    /// which the copy then takes on. The reply thus holds what other clients
    /// changed, never the client's own edits.
    ///
    /// Fails, changing nothing, for an unknown client, for spent version
    /// counters, and where the document cannot be loaded, patched or saved;
    /// where the saved edits cannot be applied to the copy, fails after the save.
    pub fn sync_with_client_at(&mut self, client_id: &str, client_edits: EditList, now: u64) -> (r:
        Result<EditList, String>)
        requires
            old(self).wf(),
        ensures
            final(self).wf(),
            forall|j: int|
                0 <= j < old(self).clients@.len() ==> (#[trigger] final(self).clients@[j]).client_id
                    == old(self).clients@[j].client_id,
            round_contract(
                old(self),
                final(self),
                client_id@,
                client_edits.ops(),
                outcome_of(r),
                now,
            ),
    {
        let ghost before = *self;
        let ghost ops = client_edits.ops();
        let i = match self.find_client(client_id) {
            Some(i) => i,
            None => {
                let m = join3("Client ", client_id, " not found");
                proof {
                    reveal_strlit(" not found");
                    reveal_strlit(" has exhausted its version counter");
                    assert(m@.len() != exhausted_message(client_id@).len());
                }
                return Err(m);
            },
        };
        proof {
            lemma_client_index(before.clients@, client_id@, i as int);
            reveal(round_done);
        }
        if self.clients[i].sync_engine.document.version >= u64::MAX - 1 || (
        !client_edits.is_empty() && self.version == u64::MAX) {
            return Err(join3("Client ", client_id, " has exhausted its version counter"));
        }
        let mut current_doc = match self.get_current_document() {
            Ok(d) => d,
            Err(m) => {
                proof {
                    reveal_strlit("Document '");
                    reveal_strlit("Database error: ");
                    if starts_with(m@, "Database error: "@) {
                        lemma_not_exhausted(m@, "Database error: "@, client_id@);
                    } else {
                        assert(starts_with(m@, "Document '"@)) by {
                            assert(m@.take("Document '"@.len() as int) =~= "Document '"@);
                        }
                        lemma_not_exhausted(m@, "Document '"@, client_id@);
                    }
                }
                return Err(m);
            },
        };
        if !client_edits.is_empty() {
            let new_content = match patch(current_doc.content.as_str(), &client_edits) {
                Ok(c) => c,
                Err(e) => {
                    let m = join2("Failed to apply client edits: ", e.message().as_str());
                    proof {
                        reveal_strlit("Failed to apply client edits: ");
                        assert(m@.take("Failed to apply client edits: "@.len() as int)
                            =~= "Failed to apply client edits: "@);
                        lemma_not_exhausted(m@, "Failed to apply client edits: "@, client_id@);
                    }
                    return Err(m);
                },
            };
            current_doc =
            match self.db.update(&self.document_name, new_content) {
                Ok(d) => d,
                Err(e) => {
                    let m = join2("Failed to save document: ", e.as_str());
                    proof {
                        reveal_strlit("Failed to save document: ");
                        assert(m@.take("Failed to save document: "@.len() as int)
                            =~= "Failed to save document: "@);
                        lemma_not_exhausted(m@, "Failed to save document: "@, client_id@);
                    }
                    return Err(m);
                },
            };
            self.version = self.version + 1;
        }
        let ghost old_clients = self.clients@;
        let mut session = self.clients.remove(i);
        let result = session.finish_round(&current_doc, &client_edits, now);
        self.clients.insert(i, session);
        proof {
            assert(self.clients@ =~= old_clients.update(i as int, self.clients@[i as int]));
            if result is Err {
                let m = result->Err_0;
                reveal_strlit("Failed to apply client edits to shadow: ");
                assert(m@.take("Failed to apply client edits to shadow: "@.len() as int)
                    =~= "Failed to apply client edits to shadow: "@);
                lemma_not_exhausted(m@, "Failed to apply client edits to shadow: "@, client_id@);
            }
        }
        result
    }

    /// One round with `client_id`, seen now; see `sync_with_client_at`.
    pub fn sync_with_client(&mut self, client_id: &str, client_edits: EditList) -> (r: Result<
        EditList,
        String,
    >)
        requires
            old(self).wf(),
        ensures
            final(self).wf(),
            round_contract_some_time(
                old(self),
                final(self),
                client_id@,
                client_edits.ops(),
                outcome_of(r),
            ),
    {
        let now = now_millis();
        let r = self.sync_with_client_at(client_id, client_edits, now);
        assert(round_contract(old(self), self, client_id@, client_edits.ops(), outcome_of(r), now));
        r
    }

    /// Forgets the session of `client_id`, if there is one.
    pub fn disconnect_client(&mut self, client_id: &str)
        requires
            old(self).wf(),
        ensures
            final(self).wf(),
            final(self).db == old(self).db,
            final(self).version == old(self).version,
            !has_client(final(self).clients@, client_id@),
            !has_client(old(self).clients@, client_id@) ==> final(self).clients == old(
                self,
            ).clients,
            has_client(old(self).clients@, client_id@) ==> exists|i: int|
                0 <= i < old(self).clients@.len() && (#[trigger] old(self).clients@[i]).client_id@
                    == client_id@ && final(self).clients@ == old(self).clients@.remove(i),
    {
        if let Some(i) = self.find_client(client_id) {
            let ghost old_clients = self.clients@;
            let _gone = self.clients.remove(i);
            proof {
                lemma_remove_keeps_wf(old_clients, i as int);
                assert(self.clients@ =~= old_clients.remove(i as int));
                assert forall|k: int| 0 <= k < self.clients@.len() implies (#[trigger] self.clients@[
                    k]).client_id@ != client_id@ by {
                    if k < i {
                        assert(self.clients@[k] == old_clients[k]);
                    } else {
                        assert(self.clients@[k] == old_clients[k + 1]);
                    }
                }
            }
        }
    }

    /// The names of the connected clients, in order of connection.
    pub fn get_connected_clients(&self) -> (r: Vec<&str>)
        ensures
            r@.len() == self.clients@.len(),
            forall|i: int| 0 <= i < r@.len() ==> (#[trigger] r@[i])@ == self.clients@[i].client_id@,
    {
        let mut r: Vec<&str> = Vec::new();
        let mut i: usize = 0;
        while i < self.clients.len()
            invariant
                i <= self.clients@.len(),
                r@.len() == i,
                forall|k: int| 0 <= k < i ==> (#[trigger] r@[k])@ == self.clients@[k].client_id@,
            decreases self.clients@.len() - i,
        {
            r.push(self.clients[i].client_id.as_str());
            i += 1;
        }
        r
    }

    /// Forgets every session not heard from for more than `timeout_secs` at `now`.
    pub fn cleanup_stale_clients_at(&mut self, timeout_secs: u64, now: u64)
        requires
            old(self).wf(),
        ensures
            final(self).wf(),
            final(self).db == old(self).db,
            final(self).version == old(self).version,
            final(self).clients@ == fresh_sessions(old(self).clients@, timeout_secs, now),
    {
        let ghost old_clients = self.clients@;
        let mut i: usize = self.clients.len();
        proof {
            assert(old_clients.skip(i as int) =~= Seq::<ClientSession>::empty());
            assert(old_clients.take(i as int) + Seq::<ClientSession>::empty() =~= old_clients);
        }
        while i > 0
            invariant
                i <= old_clients.len(),
                self.clients@ == old_clients.take(i as int) + fresh_sessions(
                    old_clients.skip(i as int),
                    timeout_secs,
                    now,
                ),
                sessions_wf(self.clients@),
                self.db == old(self).db,
                self.version == old(self).version,
            decreases i,
        {
            i -= 1;
            let ghost x = old_clients[i as int];
            proof {
                assert(old_clients.skip(i as int) =~= seq![x] + old_clients.skip(i + 1));
                lemma_fresh_concat(seq![x], old_clients.skip(i + 1), timeout_secs, now);
                assert(seq![x].drop_last() =~= Seq::<ClientSession>::empty());
                assert(seq![x].last() == x);
                assert(fresh_sessions(Seq::<ClientSession>::empty(), timeout_secs, now)
                    =~= Seq::<ClientSession>::empty());
                if is_stale(x, timeout_secs, now) {
                    assert(fresh_sessions(seq![x], timeout_secs, now) =~= Seq::<
                        ClientSession,
                    >::empty());
                } else {
                    assert(fresh_sessions(seq![x], timeout_secs, now) =~= seq![x]);
                }
                assert(self.clients@[i as int] == x);
            }
            let seen = self.clients[i].last_seen;
            if now > seen && older_than(now - seen, timeout_secs) {
                let ghost before = self.clients@;
                let _gone = self.clients.remove(i);
                proof {
                    lemma_remove_keeps_wf(before, i as int);
                    assert(self.clients@ =~= old_clients.take(i as int) + fresh_sessions(
                        old_clients.skip(i + 1),
                        timeout_secs,
                        now,
                    ));
                }
            } else {
                proof {
                    assert(old_clients.take(i + 1) =~= old_clients.take(i as int).push(x));
                    assert(self.clients@ =~= old_clients.take(i as int) + fresh_sessions(
                        old_clients.skip(i as int),
                        timeout_secs,
                        now,
                    ));
                }
            }
        }
        proof {
            assert(old_clients.take(0) + fresh_sessions(old_clients.skip(0), timeout_secs, now)
                =~= fresh_sessions(old_clients, timeout_secs, now)) by {
                assert(old_clients.skip(0) =~= old_clients);
            }
        }
    }

    /// Forgets every session not heard from for more than `timeout_secs` now.
    pub fn cleanup_stale_clients(&mut self, timeout_secs: u64)
        requires
            old(self).wf(),
        ensures
            final(self).wf(),
            final(self).db == old(self).db,
            final(self).version == old(self).version,
            exists|now: u64| final(self).clients@ == #[trigger] fresh_sessions(
                old(self).clients@,
                timeout_secs,
                now,
            ),
    {
        let now = now_millis();
        self.cleanup_stale_clients_at(timeout_secs, now);
    }

    /// Answers one message from the connection whose client, once connected,
    /// is `client_id`: a `Connect` registers the client and answers
    /// `ConnectOk` with the document, a `ClientSync` runs a round and answers
    /// `ServerSync`, a `Disconnect` forgets the client and gets no answer, a
    /// `Ping` gets a `Pong`. Failures and unexpected messages get an `Error`.
    pub fn handle_message(&mut self, message: SyncMessage, client_id: &mut Option<String>) -> (r:
        Option<SyncMessage>)
        requires
            old(self).wf(),
        ensures
            final(self).wf(),
            final(self).db == old(self).db || message is ClientSync,
            message matches SyncMessage::Connect { client_id: id } ==> {
                &&& has_client(old(self).clients@, id@) ==> (r matches Some(
                    SyncMessage::Error { message: m },
                ) && m@ == "Client "@ + id@ + " already connected"@)
                &&& r matches Some(SyncMessage::ConnectOk { server_version, document }) ==> {
                    &&& *final(client_id) == Some(id)
                    &&& old(self).authoritative() == Some((document.content@, document.version))
                    &&& final(self).clients@.drop_last() == old(self).clients@
                    &&& final(self).clients@.last().client_id == id
                    &&& final(self).clients@.last().sync_engine.node_id == id
                    &&& final(self).clients@.last().sync_engine.document.content@
                        == document.content@
                    &&& server_version == final(self).version
                }
                &&& r matches Some(SyncMessage::Error { .. }) ==> final(self).clients == old(
                    self,
                ).clients && *final(client_id) == *old(client_id)
                &&& r matches Some(m) && (m is ConnectOk || m is Error)
                &&& !has_client(old(self).clients@, id@) && old(self).version == u64::MAX ==> (
                r matches Some(SyncMessage::Error { message: m }) && m@
                    == "Server version counter is exhausted"@)
                &&& old(self).db.reliable() && !has_client(old(self).clients@, id@)
                    && old(self).version < u64::MAX && old(self).authoritative() is Some ==> (
                r matches Some(m) && m is ConnectOk)
            },
            message matches SyncMessage::ClientSync { client_id: id, edits, .. }
                ==> round_contract_some_time(
                old(self),
                final(self),
                id@,
                edits.ops(),
                reply_outcome(r),
            ),
            r matches Some(SyncMessage::ServerSync { server_version, .. }) ==> server_version
                == final(self).version,
            message is ClientSync ==> (r matches Some(m) && (m is ServerSync || m is Error)),
            message matches SyncMessage::Disconnect { client_id: id } ==> r is None && !has_client(
                final(self).clients@,
                id@,
            ),
            message is Ping ==> (r matches Some(m) && m is Pong),
            !(message is Connect) ==> *final(client_id) == *old(client_id),
            !(message is Connect || message is ClientSync || message is Disconnect)
                ==> final(self).clients == old(self).clients,
            !(message is Connect || message is ClientSync || message is Disconnect
                || message is Ping) ==> (r matches Some(SyncMessage::Error { message: m }) && m@
                == "Unexpected message type"@),
    {
        match message {
            SyncMessage::Connect { client_id: id } => {
                match self.connect_client(id.clone()) {
                    Ok(document) => {
                        *client_id = Some(id);
                        Some(SyncMessage::ConnectOk { server_version: self.version, document })
                    },
                    Err(error) => Some(SyncMessage::Error { message: error }),
                }
            },
            SyncMessage::ClientSync { client_id: id, edits, client_version: _ } => {
                match self.sync_with_client(id.as_str(), edits) {
                    Ok(server_edits) => {
                        Some(
                            SyncMessage::ServerSync {
                                edits: server_edits,
                                server_version: self.version,
                            },
                        )
                    },
                    Err(error) => Some(SyncMessage::Error { message: error }),
                }
            },
            SyncMessage::Disconnect { client_id: id } => {
                self.disconnect_client(id.as_str());
                None
            },
            SyncMessage::Ping => Some(SyncMessage::Pong),
            _ => Some(SyncMessage::Error { message: "Unexpected message type".to_owned() }),
        }
    }
}

impl SyncServer<MemoryStore> {
    /// A server over a fresh in-memory store, serving `document_name`.
    pub fn new_in_memory(document_name: String) -> (r: Result<Self, String>)
        ensures
            r matches Ok(s) && s.document_name == document_name && s.clients@.len() == 0
                && s.version == 0 && s.wf() && (s.db.contents(default_name()) matches Some(d)
                && d.content@ == default_content() && d.version == 0) && forall|n: Seq<char>|
                n != default_name() ==> #[trigger] s.db.contents(n) is None,
    {
        let db = MemoryStore::new_in_memory();
        Self::new_with_db(db, document_name)
    }
}

} // verus!
