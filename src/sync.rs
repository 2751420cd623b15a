//! The per-participant differential synchronization engine.

use vstd::prelude::*;
use vstd::string::*;

use crate::diff::{
    checksum, checksum_of, diff, diff_spec, error_message, lemma_diff_empty_iff_equal,
    lemma_diff_patch_round_trip, patch, patch_text, EditList, EditView, PatchError,
};
use crate::document::Document;
use crate::text::{byte_len, bytes_of, decimal_of, push_digits, utf8_len};
use vstd::utf8::{
    decode_utf8, encode_utf8_decode_utf8, encode_utf8_valid_utf8, is_char_boundary,
    is_char_boundary_start_end_of_seq,
};

verus! {

/// One participant's state: the live document, the shadow (what the peer is
/// believed to hold), an optional backup of the shadow, and a node name.
#[derive(Debug)]
pub struct SyncEngine {
    /// The content the user sees and edits.
    pub document: Document,
    /// What the peer is believed to hold; outgoing edits are diffed against it.
    pub shadow: Document,
    /// A kept copy of the shadow, for recovery after a lost message.
    pub backup_shadow: Option<Document>,
    /// Edit lists waiting to be sent; counted by `stats`.
    pub pending_edits: Vec<EditList>,
    /// The participant's name.
    pub node_id: String,
}

/// The outcome of applying one side's edits to the other side.
#[derive(Debug)]
pub struct SyncResult {
    pub edits: EditList,
    pub shadow_checksum: String,
    pub success: bool,
    pub message: Option<String>,
}

/// A snapshot of an engine's counters.
#[derive(Debug, PartialEq, Eq)]
pub struct SyncStats {
    pub document_version: u64,
    pub document_length: usize,
    pub shadow_checksum: String,
    pub has_backup: bool,
    pub pending_edits: usize,
}

/// The contents of an engine's document and shadow.
pub struct Replica {
    pub document: Seq<char>,
    pub shadow: Seq<char>,
}

/// A fresh replica: document and shadow both hold `content`.
pub open spec fn fresh_replica(content: Seq<char>) -> Replica {
    Replica { document: content, shadow: content }
}

/// Whether applying `ops` patches both the shadow and the document.
pub open spec fn apply_succeeds(r: Replica, ops: Seq<EditView>) -> bool {
    ops.len() == 0 || (patch_text(r.shadow, ops) is Some && patch_text(r.document, ops) is Some)
}

/// The replica after incoming edits: nothing changes for no edits or when the
/// shadow cannot be patched; else the shadow is patched, and the document too
/// where it can be.
pub open spec fn replica_apply(r: Replica, ops: Seq<EditView>) -> Replica {
    if ops.len() == 0 {
        r
    } else {
        match patch_text(r.shadow, ops) {
            None => r,
            Some(s) => Replica {
                document: match patch_text(r.document, ops) {
                    Some(d) => d,
                    None => r.document,
                },
                shadow: s,
            },
        }
    }
}

/// The replica after its outgoing edits were taken: the shadow catches up with
/// the document.
pub open spec fn replica_flush(r: Replica) -> Replica {
    Replica { document: r.document, shadow: r.document }
}

/// One synchronization round started by `a`: `a`'s edits go to `b`, then
/// `b`'s edits come back to `a`.
pub open spec fn replica_sync(a: Replica, b: Replica) -> (Replica, Replica) {
    let b1 = replica_apply(b, diff_spec(a.shadow, a.document));
    let b2 = replica_flush(b1);
    let a2 = replica_apply(replica_flush(a), diff_spec(b1.shadow, b1.document));
    (a2, b2)
}

/// Relies on rand::random: a uniformly drawn `u32`, of which nothing else is known.
#[verifier::external_body]
fn random_u32() -> (r: u32) {
    rand::random::<u32>()
}

/// The node name for a drawn number: `node_` and the number in decimal.
pub fn default_node_id(n: u32) -> (r: String)
    ensures
        r@ == "node_"@ + decimal_of(n as nat),
{
    let mut r = "node_".to_owned();
    push_digits(&mut r, n as u64, 10);
    r
}

/// The largest character boundary of the bytes `b` at or below `k`.
pub open spec fn boundary_at_most(b: Seq<u8>, k: nat) -> nat
    decreases k,
{
    if k == 0 || is_char_boundary(b, k as int) {
        k
    } else {
        boundary_at_most(b, (k - 1) as nat)
    }
}

/// A document's content as a one-line summary shows it: up to 50 bytes as
/// it is, else the characters within its first 47 bytes and `...`.
pub open spec fn shown_content(s: Seq<char>) -> Seq<char> {
    if utf8_len(s) > 50 {
        decode_utf8(bytes_of(s).take(boundary_at_most(bytes_of(s), 47) as int)) + "..."@
    } else {
        s
    }
}

/// At most the first 8 characters of `s`.
pub open spec fn short_prefix(s: Seq<char>) -> Seq<char> {
    if s.len() > 8 {
        s.take(8)
    } else {
        s
    }
}

impl SyncEngine {
    /// A one-line summary: name, shown content, version, and the start of the
    /// shadow's checksum.
    pub fn describe(&self) -> (r: String)
        ensures
            r@ == "SyncEngine["@ + self.node_id@ + "]: doc='"@ + shown_content(
                self.document.content@,
            ) + "' (v"@ + decimal_of(self.document.version as nat) + "), shadow_checksum="@
                + short_prefix(checksum_of(self.shadow.content@)),
    {
        let mut r = "SyncEngine[".to_owned();
        r.append(self.node_id.as_str());
        r.append("]: doc='");
        let content = self.document.content.as_str();
        if byte_len(content) > 50 {
            let ghost bytes = bytes_of(content@);
            let mut end: usize = 47;
            while end > 0 && !content.is_char_boundary(end)
                invariant
                    end <= 47,
                    bytes == bytes_of(content@),
                    boundary_at_most(bytes, 47) == boundary_at_most(bytes, end as nat),
                decreases end,
            {
                end -= 1;
            }
            proof {
                encode_utf8_valid_utf8(content@);
                is_char_boundary_start_end_of_seq(bytes);
            }
            let (left, _) = content.split_at(end);
            proof {
                encode_utf8_decode_utf8(left@);
            }
            r.append(left);
            r.append("...");
        } else {
            r.append(content);
        }
        r.append("' (v");
        push_digits(&mut r, self.document.version, 10);
        r.append("), shadow_checksum=");
        let sum = self.shadow_checksum();
        if sum.as_str().unicode_len() > 8 {
            r.append(sum.as_str().substring_char(0, 8));
        } else {
            r.append(sum.as_str());
        }
        r
    }

    /// The contents of document and shadow.
    pub open spec fn replica(&self) -> Replica {
        Replica { document: self.document.content@, shadow: self.shadow.content@ }
    }

    /// An engine whose document and shadow hold `content`, named `node_` and a
    /// random number.
    pub fn new(content: String) -> (r: Self)
        ensures
            r.document.content@ == content@,
            r.document.version == 0,
            r.shadow.content@ == content@,
            r.shadow.version == 0,
            r.backup_shadow is None,
            r.pending_edits@.len() == 0,
            exists|n: u32| r.node_id@ == "node_"@ + decimal_of(n as nat),
    {
        let document = Document::new(content.clone());
        let shadow = Document::new(content);
        let n = random_u32();
        SyncEngine {
            document,
            shadow,
            backup_shadow: None,
            pending_edits: Vec::new(),
            node_id: default_node_id(n),
        }
    }

    /// A server-side engine: as `new`, with the given name and a backup of the shadow.
    pub fn new_server(content: String, node_id: String) -> (r: Self)
        ensures
            r.document.content@ == content@,
            r.document.version == 0,
            r.shadow.content@ == content@,
            r.shadow.version == 0,
            r.backup_shadow matches Some(b) && b.content@ == content@ && b.version == 0,
            r.pending_edits@.len() == 0,
            r.node_id == node_id,
    {
        let document = Document::new(content.clone());
        let shadow = Document::new(content.clone());
        let backup_shadow = Some(Document::new(content));
        SyncEngine { document, shadow, backup_shadow, pending_edits: Vec::new(), node_id }
    }

    /// Replaces the document's content, as a user edit does; the shadow stays.
    pub fn edit(&mut self, new_content: &str)
        requires
            old(self).document.version < u64::MAX,
        ensures
            final(self).document.content@ == new_content@,
            final(self).document.version == old(self).document.version + 1,
            final(self).shadow == old(self).shadow,
            final(self).backup_shadow == old(self).backup_shadow,
            final(self).pending_edits == old(self).pending_edits,
            final(self).node_id == old(self).node_id,
    {
        self.document.update(new_content.to_owned());
    }

    pub fn text(&self) -> (r: &str)
        ensures
            r@ == self.document.content@,
    {
        self.document.content.as_str()
    }

    pub fn document(&self) -> (r: &Document)
        ensures
            *r == self.document,
    {
        &self.document
    }

    pub fn shadow_checksum(&self) -> (r: String)
        ensures
            r@ == checksum_of(self.shadow.content@),
    {
        checksum(self.shadow.content.as_str())
    }

    /// The edits from the shadow to the document; the shadow then becomes a copy
    /// of the document.
    pub fn diff_and_update_shadow(&mut self) -> (r: EditList)
        ensures
            r.ops() == diff_spec(old(self).shadow.content@, old(self).document.content@),
            r.checksum@ == checksum_of(old(self).shadow.content@),
            final(self).shadow == old(self).document,
            final(self).document == old(self).document,
            final(self).shadow.content@ == final(self).document.content@,
            final(self).backup_shadow == old(self).backup_shadow,
            final(self).pending_edits == old(self).pending_edits,
            final(self).node_id == old(self).node_id,
            final(self).replica() == replica_flush(old(self).replica()),
    {
        let edits = diff(self.shadow.content.as_str(), self.document.content.as_str());
        self.shadow = self.document.clone();
        edits
    }

    /// Applies incoming edits: first to the shadow, then to the document.
    ///
    /// No edits change nothing. Where the shadow cannot be patched nothing
    /// changes; where the document cannot, only the shadow has moved. Each
    /// patched part counts one more version.
    pub fn apply_edits(&mut self, edit_list: EditList) -> (r: Result<(), PatchError>)
        requires
            old(self).document.version < u64::MAX,
            old(self).shadow.version < u64::MAX,
        ensures
            final(self).replica() == replica_apply(old(self).replica(), edit_list.ops()),
            r is Ok <==> apply_succeeds(old(self).replica(), edit_list.ops()),
            r is Err ==> r == Err::<(), PatchError>(PatchError::InvalidPosition),
            final(self).shadow.version == if edit_list.ops().len() > 0 && patch_text(
                old(self).shadow.content@,
                edit_list.ops(),
            ) is Some {
                old(self).shadow.version + 1
            } else {
                old(self).shadow.version as int
            },
            final(self).document.version == if r is Ok && edit_list.ops().len() > 0 {
                old(self).document.version + 1
            } else {
                old(self).document.version as int
            },
            final(self).backup_shadow == old(self).backup_shadow,
            final(self).pending_edits == old(self).pending_edits,
            final(self).node_id == old(self).node_id,
            !(edit_list.ops().len() > 0 && patch_text(old(self).shadow.content@, edit_list.ops())
                is Some) ==> *final(self) == *old(self),
    {
        if edit_list.is_empty() {
            return Ok(());
        }
        match patch(self.shadow.content.as_str(), &edit_list) {
            Ok(new_shadow_content) => {
                self.shadow.update(new_shadow_content);
                match patch(self.document.content.as_str(), &edit_list) {
                    Ok(new_content) => {
                        self.document.update(new_content);
                        Ok(())
                    },
                    Err(e) => Err(e),
                }
            },
            Err(e) => Err(e),
        }
    }

    /// One full round with `other`: this engine's edits go to `other`, then
    /// `other`'s edits come back. Returns what happened on `other`, then what
    /// happened here.
    pub fn sync_with(&mut self, other: &mut SyncEngine) -> (r: (SyncResult, SyncResult))
        requires
            old(self).document.version < u64::MAX,
            old(other).document.version < u64::MAX,
            old(other).shadow.version < u64::MAX,
        ensures
            (final(self).replica(), final(other).replica()) == replica_sync(
                old(self).replica(),
                old(other).replica(),
            ),
            r.0.edits.ops() == diff_spec(old(self).shadow.content@, old(self).document.content@),
            r.0.edits.checksum@ == checksum_of(old(self).shadow.content@),
            r.0.success == apply_succeeds(
                old(other).replica(),
                diff_spec(old(self).shadow.content@, old(self).document.content@),
            ),
            r.0.shadow_checksum@ == checksum_of(
                replica_apply(
                    old(other).replica(),
                    diff_spec(old(self).shadow.content@, old(self).document.content@),
                ).shadow,
            ),
            r.0.success ==> r.0.message is None,
            !r.0.success ==> (r.0.message matches Some(m) && m@ == error_message(
                PatchError::InvalidPosition,
            )),
            ({
                let b1 = replica_apply(
                    old(other).replica(),
                    diff_spec(old(self).shadow.content@, old(self).document.content@),
                );
                &&& r.1.edits.ops() == diff_spec(b1.shadow, b1.document)
                &&& r.1.edits.checksum@ == checksum_of(b1.shadow)
                &&& r.1.success == apply_succeeds(
                    replica_flush(old(self).replica()),
                    diff_spec(b1.shadow, b1.document),
                )
                &&& r.1.shadow_checksum@ == checksum_of(final(self).shadow.content@)
            }),
            r.1.success ==> r.1.message is None,
            !r.1.success ==> (r.1.message matches Some(m) && m@ == error_message(
                PatchError::InvalidPosition,
            )),
    {
        let client_edits = self.diff_and_update_shadow();
        let server_result = match other.apply_edits(client_edits.clone()) {
            Ok(()) => SyncResult {
                edits: client_edits,
                shadow_checksum: other.shadow_checksum(),
                success: true,
                message: None,
            },
            Err(e) => SyncResult {
                edits: client_edits,
                shadow_checksum: other.shadow_checksum(),
                success: false,
                message: Some(e.message()),
            },
        };
        let server_edits = other.diff_and_update_shadow();
        let client_result = match self.apply_edits(server_edits.clone()) {
            Ok(()) => SyncResult {
                edits: server_edits,
                shadow_checksum: self.shadow_checksum(),
                success: true,
                message: None,
            },
            Err(e) => SyncResult {
                edits: server_edits,
                shadow_checksum: self.shadow_checksum(),
                success: false,
                message: Some(e.message()),
            },
        };
        (server_result, client_result)
    }

    /// Keeps a copy of the shadow.
    pub fn backup_shadow(&mut self)
        ensures
            final(self).backup_shadow == Some(old(self).shadow),
            final(self).document == old(self).document,
            final(self).shadow == old(self).shadow,
            final(self).pending_edits == old(self).pending_edits,
            final(self).node_id == old(self).node_id,
    {
        self.backup_shadow = Some(self.shadow.clone());
    }

    /// Puts the kept copy back as the shadow; tells whether there was one.
    pub fn restore_shadow(&mut self) -> (r: bool)
        ensures
            r == old(self).backup_shadow is Some,
            final(self).shadow == match old(self).backup_shadow {
                Some(b) => b,
                None => old(self).shadow,
            },
            final(self).document == old(self).document,
            final(self).backup_shadow == old(self).backup_shadow,
            final(self).pending_edits == old(self).pending_edits,
            final(self).node_id == old(self).node_id,
    {
        match &self.backup_shadow {
            Some(backup) => {
                self.shadow = backup.clone();
                true
            },
            None => false,
        }
    }

    pub fn stats(&self) -> (r: SyncStats)
        ensures
            r.document_version == self.document.version,
            r.document_length == utf8_len(self.document.content@),
            r.shadow_checksum@ == checksum_of(self.shadow.content@),
            r.has_backup == self.backup_shadow is Some,
            r.pending_edits == self.pending_edits@.len(),
    {
        SyncStats {
            document_version: self.document.version,
            document_length: self.document.len(),
            shadow_checksum: self.shadow_checksum(),
            has_backup: self.backup_shadow.is_some(),
            pending_edits: self.pending_edits.len(),
        }
    }
}


/// A step of two engines `a` and `b`: a local edit on one of them, or a
/// synchronization round started by one of them.
pub enum PeerStep {
    EditA(Seq<char>),
    EditB(Seq<char>),
    SyncFromA,
    SyncFromB,
}

/// The two replicas after one step.
pub open spec fn peer_step(a: Replica, b: Replica, step: PeerStep) -> (Replica, Replica) {
    match step {
        PeerStep::EditA(s) => (Replica { document: s, shadow: a.shadow }, b),
        PeerStep::EditB(s) => (a, Replica { document: s, shadow: b.shadow }),
        PeerStep::SyncFromA => replica_sync(a, b),
        PeerStep::SyncFromB => {
            let (b2, a2) = replica_sync(b, a);
            (a2, b2)
        },
    }
}

/// The two replicas after a sequence of steps, taken in order.
pub open spec fn run_peers(a: Replica, b: Replica, steps: Seq<PeerStep>) -> (Replica, Replica)
    decreases steps.len(),
{
    if steps.len() == 0 {
        (a, b)
    } else {
        let (a2, b2) = peer_step(a, b, steps[0]);
        run_peers(a2, b2, steps.drop_first())
    }
}

/// A synchronization round between replicas whose shadows agree leaves both
/// with the same document, and shadows that still agree.
pub proof fn lemma_sync_agrees(a: Replica, b: Replica)
    requires
        a.shadow == b.shadow,
    ensures
        replica_sync(a, b).0.document == replica_sync(a, b).1.document,
        replica_sync(a, b).0.shadow == replica_sync(a, b).1.shadow,
{
    let e1 = diff_spec(a.shadow, a.document);
    lemma_diff_empty_iff_equal(a.shadow, a.document);
    lemma_diff_patch_round_trip(a.shadow, a.document);
    let b1 = replica_apply(b, e1);
    assert(b1.shadow == a.document);
    let e2 = diff_spec(b1.shadow, b1.document);
    lemma_diff_empty_iff_equal(b1.shadow, b1.document);
    lemma_diff_patch_round_trip(b1.shadow, b1.document);
}

/// Local edits leave shadows alone, and every round between replicas whose
/// shadows agree keeps them agreeing.
proof fn lemma_run_keeps_shadows(a: Replica, b: Replica, steps: Seq<PeerStep>)
    requires
        a.shadow == b.shadow,
    ensures
        run_peers(a, b, steps).0.shadow == run_peers(a, b, steps).1.shadow,
    decreases steps.len(),
{
    if steps.len() > 0 {
        lemma_sync_agrees(a, b);
        lemma_sync_agrees(b, a);
        let (a2, b2) = peer_step(a, b, steps[0]);
        lemma_run_keeps_shadows(a2, b2, steps.drop_first());
    }
}

/// Two engines started on the same content, after any sequence of local edits
/// and synchronization rounds followed by one more round, show the same text.
pub proof fn lemma_two_engines_converge(init: Seq<char>, steps: Seq<PeerStep>, last: PeerStep)
    requires
        last is SyncFromA || last is SyncFromB,
    ensures
        run_peers(fresh_replica(init), fresh_replica(init), steps.push(last)).0.document
            == run_peers(fresh_replica(init), fresh_replica(init), steps.push(last)).1.document,
{
    lemma_run_split(fresh_replica(init), fresh_replica(init), steps, last);
    lemma_run_keeps_shadows(fresh_replica(init), fresh_replica(init), steps);
    let (a, b) = run_peers(fresh_replica(init), fresh_replica(init), steps);
    lemma_sync_agrees(a, b);
    lemma_sync_agrees(b, a);
}

/// Running `steps` and then `last` is running `steps.push(last)`.
proof fn lemma_run_split(a: Replica, b: Replica, steps: Seq<PeerStep>, last: PeerStep)
    ensures
        run_peers(a, b, steps.push(last)) == ({
            let (a2, b2) = run_peers(a, b, steps);
            peer_step(a2, b2, last)
        }),
    decreases steps.len(),
{
    if steps.len() == 0 {
        assert(steps.push(last)[0] == last);
        assert(steps.push(last).drop_first() =~= Seq::<PeerStep>::empty());
        let p = peer_step(a, b, last);
        assert(run_peers(p.0, p.1, Seq::<PeerStep>::empty()) == p);
        assert(run_peers(a, b, steps) == (a, b));
    } else {
        let (a2, b2) = peer_step(a, b, steps[0]);
        assert(steps.push(last)[0] == steps[0]);
        assert(steps.push(last).drop_first() =~= steps.drop_first().push(last));
        lemma_run_split(a2, b2, steps.drop_first(), last);
        assert(run_peers(a, b, steps) == run_peers(a2, b2, steps.drop_first()));
        assert(run_peers(a, b, steps.push(last)) == run_peers(
            a2,
            b2,
            steps.drop_first().push(last),
        ));
    }
}

} // verus!
