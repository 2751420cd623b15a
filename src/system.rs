//! A model of a whole system of clients around one server, and what it
//! guarantees: a client is never sent its own edits back, and all clients end
//! up with the authoritative content once edits stop.

use vstd::prelude::*;

use crate::diff::{diff_spec, lemma_diff_empty_iff_equal, lemma_diff_patch_round_trip, EditView};
use crate::server::{round_done, server_round, SyncServer};
use crate::store::DocumentStore;
use crate::sync::{fresh_replica, replica_apply, replica_flush, Replica};

verus! {

/// A client's round that sent edits, followed at once by its round that sent
/// none, with no other round in between: the second reply is empty.
pub proof fn lemma_server_non_echo<S: DocumentStore>(
    s0: SyncServer<S>,
    s1: SyncServer<S>,
    s2: SyncServer<S>,
    i: int,
    ops: Seq<EditView>,
    reply1: Seq<EditView>,
    reply2: Seq<EditView>,
    now1: u64,
    now2: u64,
)
    requires
        ops.len() > 0,
        round_done(&s0, &s1, i, ops, reply1, now1),
        round_done(&s1, &s2, i, Seq::<EditView>::empty(), reply2, now2),
    ensures
        reply2.len() == 0,
{
    reveal(round_done);
    let prev = s0.authoritative()->Some_0;
    let res = server_round(prev.0, s0.clients@[i].sync_engine.document.content@, ops)->Some_0;
    lemma_diff_empty_iff_equal(res.0, res.0);
}

/// The whole system in the model: the authoritative content, each client's
/// replica, and the server's copy of each client's shadow.
pub struct SystemModel {
    pub doc: Seq<char>,
    pub clients: Seq<Replica>,
    pub copies: Seq<Seq<char>>,
}

/// A step of the system: a local edit by a client, or a client's full round
/// (it sends its diff, the server reconciles, the client applies the reply).
pub enum SystemStep {
    Edit(nat, Seq<char>),
    Sync(nat),
}

/// The system after one step; `None` for an unknown client or a round whose
/// edits cannot be patched.
pub open spec fn system_step(m: SystemModel, step: SystemStep) -> Option<SystemModel> {
    match step {
        SystemStep::Edit(c, t) => if c < m.clients.len() {
            Some(
                SystemModel {
                    clients: m.clients.update(
                        c as int,
                        Replica { document: t, shadow: m.clients[c as int].shadow },
                    ),
                    ..m
                },
            )
        } else {
            None
        },
        SystemStep::Sync(c) => if c < m.clients.len() && c < m.copies.len() {
            let r = m.clients[c as int];
            match server_round(m.doc, m.copies[c as int], diff_spec(r.shadow, r.document)) {
                Some(res) => Some(
                    SystemModel {
                        doc: res.0,
                        clients: m.clients.update(c as int, replica_apply(replica_flush(r), res.2)),
                        copies: m.copies.update(c as int, res.1),
                    },
                ),
                None => None,
            }
        } else {
            None
        },
    }
}

/// The system after a sequence of steps, taken in order.
pub open spec fn run_system(m: SystemModel, steps: Seq<SystemStep>) -> Option<SystemModel>
    decreases steps.len(),
{
    if steps.len() == 0 {
        Some(m)
    } else {
        match system_step(m, steps[0]) {
            Some(m2) => run_system(m2, steps.drop_first()),
            None => None,
        }
    }
}

/// `n` clients connected to a server whose document holds `content`.
pub open spec fn initial_system(content: Seq<char>, n: nat) -> SystemModel {
    SystemModel {
        doc: content,
        clients: Seq::new(n, |i: int| fresh_replica(content)),
        copies: Seq::new(n, |i: int| content),
    }
}

/// Every step is a round, and each of the first `n` clients has one.
pub open spec fn rounds_for_all(steps: Seq<SystemStep>, n: nat) -> bool {
    &&& forall|k: int| 0 <= k < steps.len() ==> (#[trigger] steps[k]) is Sync
    &&& forall|c: nat| c < n ==> #[trigger] has_round(steps, c)
}

/// Whether client `c` has a round among `steps`.
pub open spec fn has_round(steps: Seq<SystemStep>, c: nat) -> bool {
    exists|k: int| 0 <= k < steps.len() && #[trigger] steps[k] == SystemStep::Sync(c)
}

/// The server's copy of each client's shadow is that shadow.
pub open spec fn copies_agree(m: SystemModel) -> bool {
    &&& m.copies.len() == m.clients.len()
    &&& forall|c: int| 0 <= c < m.clients.len() ==> #[trigger] m.copies[c] == m.clients[c].shadow
}

/// Whether client `c` has no local change left to send.
pub open spec fn is_clean(m: SystemModel, c: int) -> bool {
    m.clients[c].document == m.clients[c].shadow
}

/// A round of client `c` leaves it clean and holding the authoritative
/// content, keeps the copies in agreement, touches no other client, and keeps
/// the authoritative content where `c` was clean.
proof fn lemma_round(m: SystemModel, c: nat)
    requires
        copies_agree(m),
        system_step(m, SystemStep::Sync(c)) is Some,
    ensures
        ({
            let m2 = system_step(m, SystemStep::Sync(c))->Some_0;
            &&& copies_agree(m2)
            &&& m2.clients.len() == m.clients.len()
            &&& m2.clients[c as int].document == m2.doc
            &&& m2.clients[c as int].shadow == m2.doc
            &&& forall|k: int|
                0 <= k < m.clients.len() && k != c ==> #[trigger] m2.clients[k] == m.clients[k]
            &&& is_clean(m, c as int) ==> m2.doc == m.doc
        }),
{
    let r = m.clients[c as int];
    let ops = diff_spec(r.shadow, r.document);
    lemma_diff_empty_iff_equal(r.shadow, r.document);
    lemma_diff_patch_round_trip(r.shadow, r.document);
    let res = server_round(m.doc, m.copies[c as int], ops)->Some_0;
    lemma_diff_empty_iff_equal(r.document, res.0);
    lemma_diff_patch_round_trip(r.document, res.0);
    let m2 = system_step(m, SystemStep::Sync(c))->Some_0;
    assert(m2.clients[c as int] == replica_apply(replica_flush(r), res.2));
}

/// Running `a` then `b` is running `a + b`.
proof fn lemma_run_concat(m: SystemModel, a: Seq<SystemStep>, b: Seq<SystemStep>)
    requires
        run_system(m, a + b) is Some,
    ensures
        run_system(m, a) is Some,
        run_system(run_system(m, a)->Some_0, b) == run_system(m, a + b),
    decreases a.len(),
{
    if a.len() == 0 {
        assert(a + b =~= b);
    } else {
        assert((a + b)[0] == a[0]);
        assert((a + b).drop_first() =~= a.drop_first() + b);
        let m2 = system_step(m, a[0])->Some_0;
        lemma_run_concat(m2, a.drop_first(), b);
    }
}

/// Any run keeps the copies in agreement and the number of clients.
proof fn lemma_run_agrees(m: SystemModel, steps: Seq<SystemStep>)
    requires
        copies_agree(m),
        run_system(m, steps) is Some,
    ensures
        copies_agree(run_system(m, steps)->Some_0),
        run_system(m, steps)->Some_0.clients.len() == m.clients.len(),
    decreases steps.len(),
{
    if steps.len() > 0 {
        let m2 = system_step(m, steps[0])->Some_0;
        match steps[0] {
            SystemStep::Sync(c) => {
                lemma_round(m, c);
            },
            SystemStep::Edit(c, t) => {
                assert forall|k: int| 0 <= k < m2.clients.len() implies #[trigger] m2.copies[k]
                    == m2.clients[k].shadow by {
                    if k != c {
                        assert(m2.clients[k] == m.clients[k]);
                    }
                }
            },
        }
        lemma_run_agrees(m2, steps.drop_first());
    }
}

/// Over rounds only, a client that has had a round stays clean, and every
/// client that was clean stays clean.
proof fn lemma_rounds_clean(m: SystemModel, steps: Seq<SystemStep>, c: int)
    requires
        copies_agree(m),
        run_system(m, steps) is Some,
        0 <= c < m.clients.len(),
        forall|k: int| 0 <= k < steps.len() ==> (#[trigger] steps[k]) is Sync,
        is_clean(m, c) || has_round(steps, c as nat),
    ensures
        is_clean(run_system(m, steps)->Some_0, c),
    decreases steps.len(),
{
    if steps.len() > 0 {
        let m2 = system_step(m, steps[0])->Some_0;
        let c0 = steps[0]->Sync_0;
        assert(steps[0] is Sync);
        lemma_round(m, c0);
        assert forall|k: int| 0 <= k < steps.drop_first().len() implies (
        #[trigger] steps.drop_first()[k]) is Sync by {
            assert(steps.drop_first()[k] == steps[k + 1]);
        }
        if !is_clean(m2, c) {
            let k = choose|k: int|
                0 <= k < steps.len() && #[trigger] steps[k] == SystemStep::Sync(c as nat);
            assert(k != 0);
            assert(steps.drop_first()[k - 1] == steps[k]);
        }
        lemma_rounds_clean(m2, steps.drop_first(), c);
    }
}

/// Over rounds only, with every client clean, the authoritative content stays,
/// every client stays clean, and a client that has had a round, or already
/// held the authoritative content, holds it at the end.
proof fn lemma_quiet_rounds(m: SystemModel, steps: Seq<SystemStep>, c: int)
    requires
        copies_agree(m),
        run_system(m, steps) is Some,
        0 <= c < m.clients.len(),
        forall|k: int| 0 <= k < steps.len() ==> (#[trigger] steps[k]) is Sync,
        forall|k: int| 0 <= k < m.clients.len() ==> is_clean(m, k),
        m.clients[c].document == m.doc || has_round(steps, c as nat),
    ensures
        run_system(m, steps)->Some_0.doc == m.doc,
        run_system(m, steps)->Some_0.clients[c].document == m.doc,
    decreases steps.len(),
{
    if steps.len() > 0 {
        let m2 = system_step(m, steps[0])->Some_0;
        let c0 = steps[0]->Sync_0;
        assert(steps[0] is Sync);
        lemma_round(m, c0);
        assert(m2.doc == m.doc);
        assert forall|k: int| 0 <= k < m2.clients.len() implies is_clean(m2, k) by {
            if k != c0 {
                assert(m2.clients[k] == m.clients[k]);
                assert(is_clean(m, k));
            } else {
                assert(m2.clients[k].document == m2.doc);
                assert(m2.clients[k].shadow == m2.doc);
            }
        }
        assert forall|k: int| 0 <= k < steps.drop_first().len() implies (
        #[trigger] steps.drop_first()[k]) is Sync by {
            assert(steps.drop_first()[k] == steps[k + 1]);
        }
        if m2.clients[c].document != m2.doc {
            assert(c != c0);
            assert(m2.clients[c] == m.clients[c]);
            let k = choose|k: int|
                0 <= k < steps.len() && #[trigger] steps[k] == SystemStep::Sync(c as nat);
            assert(k != 0);
            assert(steps.drop_first()[k - 1] == steps[k]);
        }
        lemma_quiet_rounds(m2, steps.drop_first(), c);
    }
}

/// `n` clients that start from the server's document, after any run of local
/// edits and rounds, then rounds only in which every client has a round, and
/// then once more rounds only in which every client has a round, all hold the
/// authoritative content: provided every round of the run could be patched.
pub proof fn lemma_server_convergence(
    content: Seq<char>,
    n: nat,
    work: Seq<SystemStep>,
    flush: Seq<SystemStep>,
    settle: Seq<SystemStep>,
)
    requires
        rounds_for_all(flush, n),
        rounds_for_all(settle, n),
        run_system(initial_system(content, n), work + flush + settle) is Some,
    ensures
        ({
            let m = run_system(initial_system(content, n), work + flush + settle)->Some_0;
            forall|c: int| 0 <= c < n ==> #[trigger] m.clients[c].document == m.doc
        }),
{
    let m0 = initial_system(content, n);
    assert(copies_agree(m0));
    lemma_run_concat(m0, work + flush, settle);
    lemma_run_concat(m0, work, flush);
    let m1 = run_system(m0, work)->Some_0;
    lemma_run_agrees(m0, work);
    let m2 = run_system(m1, flush)->Some_0;
    lemma_run_agrees(m1, flush);
    assert forall|c: int| 0 <= c < n implies is_clean(m2, c) by {
        assert(has_round(flush, c as nat));
        lemma_rounds_clean(m1, flush, c);
    }
    let m3 = run_system(m2, settle)->Some_0;
    assert forall|c: int| 0 <= c < n implies #[trigger] m3.clients[c].document == m3.doc by {
        assert(has_round(settle, c as nat));
        lemma_quiet_rounds(m2, settle, c);
        lemma_quiet_rounds(m2, settle, 0);
    }
}

} // verus!
