use diff_sync::diff::{diff, patch, EditList};
use diff_sync::document::Document;
use diff_sync::protocol::{frame_message, unframe_line, SyncMessage};
use diff_sync::server::{ClientSession, SyncServer};
use diff_sync::store::{DocumentStore, MemoryStore};
use diff_sync::sync::SyncEngine;

fn server_with(content: &str) -> SyncServer<MemoryStore> {
    let mut server = SyncServer::new_in_memory("main".to_string()).unwrap();
    server.db.update_document("main", content.to_string()).unwrap();
    server
}

/// A client engine connected to `server` under `id`.
fn connect(server: &mut SyncServer<MemoryStore>, id: &str) -> SyncEngine {
    let doc = server.connect_client(id.to_string()).unwrap();
    let mut engine = SyncEngine::new(doc.content);
    engine.node_id = id.to_string();
    engine
}

/// One client round: send the diff, apply the reply.
fn round(server: &mut SyncServer<MemoryStore>, id: &str, engine: &mut SyncEngine) -> EditList {
    let edits = engine.diff_and_update_shadow();
    let reply = server.sync_with_client(id, edits).unwrap();
    engine.apply_edits(reply.clone()).unwrap();
    reply
}

#[test]
fn test_document_persistence() {
    let mut db = MemoryStore::new_in_memory();

    let doc = db.load_document("main").unwrap().unwrap();
    assert_eq!(doc.content, "Welcome to collaborative editing with persistence!");
    assert_eq!(doc.version, 0);

    let updated = db.update_document("main", "Hello persistent world!".to_string()).unwrap();
    assert_eq!(updated.content, "Hello persistent world!");
    assert_eq!(updated.version, 1);

    let reloaded = db.load_document("main").unwrap().unwrap();
    assert_eq!(reloaded.content, "Hello persistent world!");
    assert_eq!(reloaded.version, 1);
}

#[test]
fn test_document_stats() {
    let db = MemoryStore::new_in_memory();
    let stats = db.get_stats();
    assert_eq!(stats.total_documents, 1);
}

#[test]
fn store_versions_strictly_increase() {
    let mut db = MemoryStore::new_in_memory();
    let mut last = db.load_document("main").unwrap().unwrap().version;
    for text in ["a", "b", "c"] {
        let d = db.update_document("main", text.to_string()).unwrap();
        assert!(d.version > last);
        last = d.version;
    }
    assert_eq!(last, 3);
    assert!(db.update_document("missing", "x".to_string()).is_err());
    assert_eq!(db.load_document("missing").unwrap(), None);
}

#[test]
fn two_clients_merge_concurrent_edits() {
    let mut server = server_with("The cat sat on the mat");
    let mut a = connect(&mut server, "a");
    let mut b = connect(&mut server, "b");

    a.edit("The big cat sat on the mat");
    round(&mut server, "a", &mut a);

    b.edit("The cat sat on the red mat");
    round(&mut server, "b", &mut b);

    round(&mut server, "a", &mut a);
    round(&mut server, "b", &mut b);

    let stored = server.get_document_content().unwrap();
    assert_eq!(a.text(), stored);
    assert_eq!(b.text(), stored);
    assert!(stored.contains("big"));
    assert!(stored.contains("red"));
}

#[test]
fn empty_poll_pulls_other_clients_updates() {
    let mut server = server_with("Hello world");
    let mut a = connect(&mut server, "a");
    let b = connect(&mut server, "b");

    a.edit("Hello beautiful world");
    round(&mut server, "a", &mut a);

    let reply = server.sync_with_client("b", EditList::empty("Hello world")).unwrap();
    assert!(!reply.is_empty());
    assert_eq!(patch(&b.shadow.content, &reply).unwrap(), "Hello beautiful world");
}

#[test]
fn own_edits_are_not_echoed() {
    let mut server = server_with("Hello world");
    let mut a = connect(&mut server, "a");
    a.edit("Hello there world");
    let edits = a.diff_and_update_shadow();
    let reply = server.sync_with_client("a", edits).unwrap();
    assert!(reply.is_empty());
    let again = server.sync_with_client("a", EditList::empty("Hello there world")).unwrap();
    assert!(again.is_empty());
    assert_eq!(server.get_document_content().unwrap(), "Hello there world");
}

#[test]
fn duplicate_connect_is_rejected() {
    let mut server = server_with("doc");
    server.connect_client("x".to_string()).unwrap();
    let before = server.version;
    let err = server.connect_client("x".to_string()).unwrap_err();
    assert_eq!(err, "Client x already connected");
    assert_eq!(server.get_connected_clients(), vec!["x"]);
    assert_eq!(server.version, before);
}

#[test]
fn stale_clients_are_swept() {
    let mut server = server_with("doc");
    server.connect_client_at("x".to_string(), 1_000).unwrap();
    server.connect_client_at("y".to_string(), 2_500).unwrap();
    server.cleanup_stale_clients_at(1, 3_000);
    assert_eq!(server.get_connected_clients(), vec!["y"]);
    server.cleanup_stale_clients_at(1, 3_500);
    assert_eq!(server.get_connected_clients(), vec!["y"]);
    server.cleanup_stale_clients_at(1, 3_501);
    assert!(server.get_connected_clients().is_empty());
}

#[test]
fn stale_sweep_with_the_clock_keeps_recent_clients() {
    let mut server = server_with("doc");
    server.connect_client("x".to_string()).unwrap();
    server.cleanup_stale_clients(120);
    assert_eq!(server.get_connected_clients(), vec!["x"]);
    let seen = server.clients[0].last_seen;
    server.cleanup_stale_clients_at(1, seen + 2_000);
    assert!(server.get_connected_clients().is_empty());
}

#[test]
fn unknown_client_and_disconnect() {
    let mut server = server_with("doc");
    assert_eq!(
        server.sync_with_client("ghost", EditList::empty("")).unwrap_err(),
        "Client ghost not found"
    );
    server.connect_client("x".to_string()).unwrap();
    server.connect_client("y".to_string()).unwrap();
    server.disconnect_client("x");
    server.disconnect_client("x");
    assert_eq!(server.get_connected_clients(), vec!["y"]);
}

#[test]
fn sync_bumps_versions_only_for_edits() {
    let mut server = server_with("abc");
    let mut a = connect(&mut server, "a");
    let v0 = server.version;
    let d0 = server.get_current_document().unwrap().version;
    round(&mut server, "a", &mut a);
    assert_eq!(server.version, v0);
    a.edit("abcd");
    round(&mut server, "a", &mut a);
    assert_eq!(server.version, v0 + 1);
    assert_eq!(server.get_current_document().unwrap().version, d0 + 1);
}

#[test]
fn server_session_tracks_the_client_shadow() {
    let mut server = server_with("one two");
    let mut a = connect(&mut server, "a");
    let mut b = connect(&mut server, "b");
    a.edit("one two three");
    round(&mut server, "a", &mut a);
    round(&mut server, "b", &mut b);
    let sb = &server.clients[1];
    assert_eq!(sb.client_id, "b");
    assert_eq!(sb.sync_engine.text(), b.shadow.content);
    assert_eq!(sb.sync_engine.shadow, sb.sync_engine.document);
}

#[test]
fn many_clients_converge() {
    let mut server = server_with("alpha beta gamma");
    let ids = ["a", "b", "c"];
    let mut engines: Vec<SyncEngine> = ids.iter().map(|id| connect(&mut server, id)).collect();
    engines[0].edit("alpha beta gamma delta");
    engines[1].edit("ALPHA beta gamma");
    engines[2].edit("alpha gamma");
    for _ in 0..2 {
        for (i, id) in ids.iter().enumerate() {
            round(&mut server, id, &mut engines[i]);
        }
    }
    let stored = server.get_document_content().unwrap();
    for e in &engines {
        assert_eq!(e.text(), stored);
    }
}

#[test]
fn session_constructor() {
    let s = ClientSession::new_at("id".to_string(), "text".to_string(), 7);
    assert_eq!(s.last_seen, 7);
    assert_eq!(s.sync_engine.node_id, "id");
    assert_eq!(s.sync_engine.text(), "text");
    let t = ClientSession::new("id".to_string(), "text".to_string());
    assert_eq!(t.client_id, "id");
}

#[test]
fn framing_round_trip() {
    let framed = frame_message("{\"Ping\":null}");
    assert_eq!(framed, b"{\"Ping\":null}\n".to_vec());
    assert_eq!(unframe_line(&framed).unwrap(), Some("{\"Ping\":null}".to_string()));
    assert_eq!(unframe_line(b"  \r\n").unwrap(), None);
    assert_eq!(unframe_line(b"").unwrap(), None);
    assert!(unframe_line(&[0xff, 0xfe, b'\n']).is_err());
    assert_eq!(unframe_line(" é \n".as_bytes()).unwrap(), Some("é".to_string()));
}

#[test]
fn messages_carry_their_fields() {
    let doc = Document::new("x".to_string());
    let m = SyncMessage::ConnectOk { server_version: 3, document: doc.clone() };
    match m {
        SyncMessage::ConnectOk { server_version, document } => {
            assert_eq!(server_version, 3);
            assert_eq!(document, doc);
        }
        _ => panic!("wrong variant"),
    }
    let d = diff("a", "b");
    let c = SyncMessage::ClientSync { client_id: "x".to_string(), edits: d.clone(), client_version: 1 };
    assert!(matches!(c, SyncMessage::ClientSync { .. }));
}

#[test]
fn dispatch_answers_each_message() {
    let mut server = server_with("Hello world");
    let mut conn: Option<String> = None;

    let reply = server.handle_message(SyncMessage::Connect { client_id: "x".to_string() }, &mut conn);
    match reply {
        Some(SyncMessage::ConnectOk { server_version, document }) => {
            assert_eq!(server_version, 1);
            assert_eq!(document.content, "Hello world");
        }
        other => panic!("unexpected reply {:?}", other),
    }
    assert_eq!(conn, Some("x".to_string()));

    let mut other_conn: Option<String> = None;
    match server.handle_message(SyncMessage::Connect { client_id: "x".to_string() }, &mut other_conn) {
        Some(SyncMessage::Error { message }) => assert_eq!(message, "Client x already connected"),
        other => panic!("unexpected reply {:?}", other),
    }
    assert_eq!(other_conn, None);
    assert_eq!(server.get_connected_clients(), vec!["x"]);

    let edits = diff("Hello world", "Hello big world");
    match server.handle_message(
        SyncMessage::ClientSync { client_id: "x".to_string(), edits, client_version: 1 },
        &mut conn,
    ) {
        Some(SyncMessage::ServerSync { edits, server_version }) => {
            assert!(edits.is_empty());
            assert_eq!(server_version, 2);
        }
        other => panic!("unexpected reply {:?}", other),
    }
    assert_eq!(server.get_document_content().unwrap(), "Hello big world");

    match server.handle_message(
        SyncMessage::ClientSync { client_id: "nobody".to_string(), edits: EditList::empty(""), client_version: 0 },
        &mut conn,
    ) {
        Some(SyncMessage::Error { message }) => assert_eq!(message, "Client nobody not found"),
        other => panic!("unexpected reply {:?}", other),
    }

    assert!(matches!(server.handle_message(SyncMessage::Ping, &mut conn), Some(SyncMessage::Pong)));
    match server.handle_message(SyncMessage::Pong, &mut conn) {
        Some(SyncMessage::Error { message }) => assert_eq!(message, "Unexpected message type"),
        other => panic!("unexpected reply {:?}", other),
    }

    assert!(server.handle_message(SyncMessage::Disconnect { client_id: "x".to_string() }, &mut conn).is_none());
    assert!(server.get_connected_clients().is_empty());
}

#[test]
fn store_trait_reads_and_writes() {
    let mut db = MemoryStore::new_in_memory();
    let name = "main".to_string();
    let d = DocumentStore::update(&mut db, &name, "x".to_string()).unwrap();
    assert_eq!(d.version, 1);
    assert_eq!(DocumentStore::load(&db, &name).unwrap(), Some(d));
    assert_eq!(DocumentStore::load(&db, &"other".to_string()).unwrap(), None);
}

#[test]
fn spent_counters_are_reported() {
    let mut server = server_with("doc");
    server.connect_client("x".to_string()).unwrap();
    server.clients[0].sync_engine.document.version = u64::MAX - 1;
    server.clients[0].sync_engine.shadow.version = u64::MAX - 1;
    assert_eq!(
        server.sync_with_client("x", EditList::empty("doc")).unwrap_err(),
        "Client x has exhausted its version counter"
    );
    let mut fresh = server_with("doc");
    fresh.version = u64::MAX;
    assert_eq!(fresh.connect_client("y".to_string()).unwrap_err(), "Server version counter is exhausted");
    assert!(fresh.clients.is_empty());
}

#[test]
fn connect_names_the_session_after_the_client() {
    let mut server = server_with("The cat sat on the mat");
    let doc = server.connect_client("A".to_string()).unwrap();
    assert_eq!(doc.content, "The cat sat on the mat");
    assert_eq!(server.clients[0].sync_engine.node_id, "A");
    assert_eq!(server.clients[0].sync_engine.shadow.content, "The cat sat on the mat");
}

#[test]
fn edits_that_cannot_be_patched_onto_the_store_change_nothing() {
    let mut server = server_with("ab");
    let mut a = connect(&mut server, "a");
    let _b = connect(&mut server, "b");
    // The store moves on to "éb"; b's copy still holds "ab".
    a.edit("éb");
    round(&mut server, "a", &mut a);
    // An insertion at byte 1 fits "ab" but falls inside "é" of the store.
    let edits = diff("ab", "axb");
    let err = server.sync_with_client("b", edits).unwrap_err();
    assert_eq!(err, "Failed to apply client edits: Invalid position");
    assert_eq!(server.get_document_content().unwrap(), "éb");
}

#[test]
fn finish_round_applies_and_replies() {
    let mut s = ClientSession::new_at("c".to_string(), "Hello world".to_string(), 0);
    let current = Document::new_with_version("Hello brave new world".to_string(), 5);
    let edits = diff("Hello world", "Hello new world");
    let reply = s.finish_round(&current, &edits, 9).unwrap();
    assert_eq!(s.last_seen, 9);
    assert_eq!(s.sync_engine.text(), "Hello brave new world");
    assert_eq!(s.sync_engine.shadow.content, "Hello brave new world");
    assert_eq!(patch("Hello new world", &reply).unwrap(), "Hello brave new world");

    let mut t = ClientSession::new_at("d".to_string(), "é".to_string(), 0);
    let bad = EditList::new(vec![diff_sync::diff::Edit::Insert { pos: 1, text: "x".to_string() }], "");
    assert_eq!(
        t.finish_round(&current, &bad, 3).unwrap_err(),
        "Failed to apply client edits to shadow: Invalid position"
    );
    assert_eq!(t.sync_engine.text(), "é");
    assert_eq!(t.last_seen, 3);
}

#[test]
fn edits_that_cannot_reach_the_copy_fail_after_the_save() {
    let mut server = server_with("éb");
    let mut a = connect(&mut server, "a");
    let _b = connect(&mut server, "b");
    // The store moves on to "ab"; b's copy still holds "éb".
    a.edit("ab");
    round(&mut server, "a", &mut a);
    let version = server.version;
    // An insertion at byte 1 fits "ab" but falls inside "é" of b's copy.
    let edits = EditList::new(vec![diff_sync::diff::Edit::Insert { pos: 1, text: "x".to_string() }], "");
    let err = server.sync_with_client("b", edits).unwrap_err();
    assert_eq!(err, "Failed to apply client edits to shadow: Invalid position");
    assert_eq!(server.get_document_content().unwrap(), "axb");
    assert_eq!(server.version, version + 1);
    assert_eq!(server.clients[1].sync_engine.text(), "éb");
}
