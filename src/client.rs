//! The client side of a connection: what to send on each sync tick, and what
//! to do with each message from the server.

use vstd::prelude::*;

use crate::diff::{diff_spec, PatchError};
use crate::protocol::SyncMessage;
use crate::sync::{apply_succeeds, replica_apply, SyncEngine};

verus! {

/// What a client made of one message from the server.
#[derive(Debug, PartialEq, Eq)]
pub enum ClientEvent {
    /// Other clients' edits, `count` of them, were applied.
    Applied { count: usize, server_version: u64 },
    /// The server had nothing new.
    NoChange,
    /// The server's edits could not be applied.
    ApplyFailed(PatchError),
    /// The server reported an error.
    ServerError(String),
    /// The answer to a heartbeat.
    Pong,
    /// A message a client does not expect.
    Unexpected,
}

/// The message of a sync tick: the engine's edits since its last tick, sent
/// even when there are none so that other clients' edits come back. The
/// shadow then catches up with the document.
pub fn next_sync_message(engine: &mut SyncEngine, client_id: String) -> (r: SyncMessage)
    ensures
        r matches SyncMessage::ClientSync { client_id: id, edits, client_version } && id
            == client_id && edits.ops() == diff_spec(
            old(engine).shadow.content@,
            old(engine).document.content@,
        ) && client_version == old(engine).document.version,
        final(engine).shadow == old(engine).document,
        final(engine).document == old(engine).document,
        final(engine).backup_shadow == old(engine).backup_shadow,
        final(engine).node_id == old(engine).node_id,
{
    let edits = engine.diff_and_update_shadow();
    SyncMessage::ClientSync { client_id, edits, client_version: engine.document.version }
}

/// Takes in one message from the server: a non-empty `ServerSync` is applied
/// to the engine; anything else leaves the engine as it is.
pub fn receive_server_message(engine: &mut SyncEngine, message: SyncMessage) -> (r: ClientEvent)
    requires
        old(engine).document.version < u64::MAX,
        old(engine).shadow.version < u64::MAX,
    ensures
        match message {
            SyncMessage::ServerSync { edits, server_version } => if edits.ops().len() == 0 {
                &&& r == ClientEvent::NoChange
                &&& *final(engine) == *old(engine)
            } else {
                &&& final(engine).replica() == replica_apply(old(engine).replica(), edits.ops())
                &&& apply_succeeds(old(engine).replica(), edits.ops()) ==> r
                    == ClientEvent::Applied { count: edits.edits@.len() as usize, server_version }
                &&& !apply_succeeds(old(engine).replica(), edits.ops()) ==> r
                    == ClientEvent::ApplyFailed(PatchError::InvalidPosition)
            },
            SyncMessage::Error { message } => {
                &&& r == ClientEvent::ServerError(message)
                &&& *final(engine) == *old(engine)
            },
            SyncMessage::Pong => {
                &&& r == ClientEvent::Pong
                &&& *final(engine) == *old(engine)
            },
            _ => {
                &&& r == ClientEvent::Unexpected
                &&& *final(engine) == *old(engine)
            },
        },
{
    match message {
        SyncMessage::ServerSync { edits, server_version } => {
            if edits.is_empty() {
                ClientEvent::NoChange
            } else {
                let count = edits.len();
                match engine.apply_edits(edits) {
                    Ok(()) => ClientEvent::Applied { count, server_version },
                    Err(e) => ClientEvent::ApplyFailed(e),
                }
            }
        },
        SyncMessage::Error { message } => ClientEvent::ServerError(message),
        SyncMessage::Pong => ClientEvent::Pong,
        _ => ClientEvent::Unexpected,
    }
}

} // verus!
