use diff_sync::client::{next_sync_message, receive_server_message, ClientEvent};
use diff_sync::diff::{diff, Edit, EditList, PatchError};
use diff_sync::document::Document;
use diff_sync::protocol::SyncMessage;
use diff_sync::sync::{default_node_id, SyncEngine};

#[test]
fn lib_test_basic_sync() {
    let mut client = SyncEngine::new("Hello world".to_string());
    let mut server = SyncEngine::new("Hello world".to_string());

    client.edit("Hello beautiful world");

    let edits = client.diff_and_update_shadow();
    server.apply_edits(edits).unwrap();

    let edits = server.diff_and_update_shadow();
    client.apply_edits(edits).unwrap();

    assert_eq!(client.text(), "Hello beautiful world");
    assert_eq!(server.text(), "Hello beautiful world");
}

#[test]
fn sync_test_basic_sync() {
    let mut client = SyncEngine::new("Hello world".to_string());
    let mut server = SyncEngine::new("Hello world".to_string());

    client.edit("Hello beautiful world");

    let (server_result, client_result) = client.sync_with(&mut server);

    assert!(server_result.success);
    assert!(client_result.success);
    assert_eq!(client.text(), "Hello beautiful world");
    assert_eq!(server.text(), "Hello beautiful world");
}

#[test]
fn test_concurrent_edits() {
    let mut client = SyncEngine::new("The cat sat on the mat".to_string());
    let mut server = SyncEngine::new("The cat sat on the mat".to_string());

    client.edit("The big cat sat on the mat");
    server.edit("The cat sat on the red mat");

    let (server_result, client_result) = client.sync_with(&mut server);

    assert!(server_result.success);
    assert!(client_result.success);

    let final_text = client.text();
    assert!(final_text.contains("big"));
    assert!(final_text.contains("red"));
    assert_eq!(client.text(), server.text());
}

#[test]
fn test_shadow_consistency() {
    let mut engine = SyncEngine::new("Test content".to_string());
    let original_checksum = engine.shadow_checksum();

    engine.edit("Modified test content");
    let edits = engine.diff_and_update_shadow();

    assert_eq!(engine.shadow.content, engine.document.content);
    assert_ne!(engine.shadow_checksum(), original_checksum);
    assert!(!edits.is_empty());
}

#[test]
fn engines_converge_over_many_rounds() {
    let mut a = SyncEngine::new("The cat sat on the mat.".to_string());
    let mut b = SyncEngine::new("The cat sat on the mat.".to_string());
    let a_edits = [
        "The big cat sat on the mat.",
        "The big black cat sat on the mat.",
        "The big black cat sat on the soft mat.",
    ];
    let b_edits = [
        "The cat sat on the red mat.",
        "The cat sat peacefully on the red mat.",
        "The friendly cat sat peacefully on the red mat.",
    ];
    for i in 0..a_edits.len() {
        a.edit(a_edits[i]);
        b.edit(b_edits[i]);
        if i % 2 == 0 {
            a.sync_with(&mut b);
        } else {
            b.sync_with(&mut a);
        }
        assert_eq!(a.text(), b.text());
    }
    a.edit("Only a changed this");
    a.sync_with(&mut b);
    assert_eq!(a.text(), b.text());
    assert_eq!(b.text(), "Only a changed this");
}

#[test]
fn edit_counts_versions_and_keeps_shadow() {
    let mut e = SyncEngine::new("one".to_string());
    e.edit("two");
    e.edit("three");
    assert_eq!(e.document().version, 2);
    assert_eq!(e.shadow.content, "one");
    assert_eq!(e.shadow.version, 0);
    let edits = e.diff_and_update_shadow();
    assert_eq!(edits.len(), 1);
    assert_eq!(e.shadow, e.document);
}

#[test]
fn apply_edits_counts_one_version_each() {
    let mut a = SyncEngine::new("abc".to_string());
    let mut b = SyncEngine::new("abc".to_string());
    a.edit("abcd");
    let edits = a.diff_and_update_shadow();
    b.apply_edits(edits).unwrap();
    assert_eq!(b.text(), "abcd");
    assert_eq!(b.document.version, 1);
    assert_eq!(b.shadow.version, 1);
    let none = b.diff_and_update_shadow();
    b.apply_edits(none).unwrap();
    assert_eq!(b.document.version, 1);
}

#[test]
fn backup_and_restore_shadow() {
    let mut e = SyncEngine::new("start".to_string());
    assert!(!e.restore_shadow());
    e.backup_shadow();
    e.edit("changed");
    e.diff_and_update_shadow();
    assert_eq!(e.shadow.content, "changed");
    assert!(e.restore_shadow());
    assert_eq!(e.shadow.content, "start");
    let server = SyncEngine::new_server("x".to_string(), "srv".to_string());
    assert_eq!(server.backup_shadow, Some(Document::new("x".to_string())));
    assert_eq!(server.node_id, "srv");
}

#[test]
fn stats_report_the_engine() {
    let mut e = SyncEngine::new("héllo".to_string());
    e.edit("héllo!");
    let s = e.stats();
    assert_eq!(s.document_version, 1);
    assert_eq!(s.document_length, 7);
    assert_eq!(s.shadow_checksum, e.shadow_checksum());
    assert!(!s.has_backup);
    assert_eq!(s.pending_edits, 0);
}

#[test]
fn node_names() {
    assert_eq!(default_node_id(0), "node_0");
    assert_eq!(default_node_id(4294967295), "node_4294967295");
    let e = SyncEngine::new(String::new());
    assert!(e.node_id.starts_with("node_"));
    assert!(e.node_id[5..].chars().all(|c| c.is_ascii_digit()));
}

#[test]
fn document_basics() {
    let mut d = Document::new("héllo".to_string());
    assert_eq!(d.len(), 6);
    assert!(!d.is_empty());
    d.update(String::new());
    assert!(d.is_empty());
    assert_eq!(d.version, 1);
    let v = Document::new_with_version("x".to_string(), 41);
    assert_eq!(v.describe(), "x (v41)");
    assert_eq!(v.clone(), v);
}

#[test]
fn engine_summary() {
    let mut e = SyncEngine::new_server("short".to_string(), "n1".to_string());
    assert_eq!(e.describe(), "SyncEngine[n1]: doc='short' (v0), shadow_checksum=235");
    let long = "a".repeat(60);
    e.edit(&long);
    let expected = format!("SyncEngine[n1]: doc='{}...' (v1), shadow_checksum=235", "a".repeat(47));
    assert_eq!(e.describe(), expected);
}

#[test]
fn document_from_string() {
    let d = Document::from("abc".to_string());
    assert_eq!(d, Document::new("abc".to_string()));
    assert_eq!(d.version, 0);
}

#[test]
fn client_tick_and_server_messages() {
    let mut engine = SyncEngine::new("Hello world".to_string());
    engine.edit("Hello big world");
    match next_sync_message(&mut engine, "me".to_string()) {
        SyncMessage::ClientSync { client_id, edits, client_version } => {
            assert_eq!(client_id, "me");
            assert_eq!(client_version, 1);
            assert_eq!(edits.edits, vec![Edit::Insert { pos: 6, text: "big ".to_string() }]);
        }
        other => panic!("unexpected message {:?}", other),
    }
    assert_eq!(engine.shadow.content, "Hello big world");

    let empty = SyncMessage::ServerSync { edits: EditList::empty("x"), server_version: 3 };
    assert_eq!(receive_server_message(&mut engine, empty), ClientEvent::NoChange);

    let update = SyncMessage::ServerSync { edits: diff("Hello big world", "Hello big wide world"), server_version: 4 };
    assert_eq!(receive_server_message(&mut engine, update), ClientEvent::Applied { count: 1, server_version: 4 });
    assert_eq!(engine.text(), "Hello big wide world");

    let mut multi = SyncEngine::new("é".to_string());
    let bad = EditList::new(vec![Edit::Insert { pos: 1, text: "x".to_string() }], "");
    let got = receive_server_message(&mut multi, SyncMessage::ServerSync { edits: bad, server_version: 1 });
    assert_eq!(got, ClientEvent::ApplyFailed(PatchError::InvalidPosition));
    assert_eq!(multi.text(), "é");

    assert_eq!(
        receive_server_message(&mut engine, SyncMessage::Error { message: "boom".to_string() }),
        ClientEvent::ServerError("boom".to_string())
    );
    assert_eq!(receive_server_message(&mut engine, SyncMessage::Pong), ClientEvent::Pong);
    assert_eq!(receive_server_message(&mut engine, SyncMessage::Ping), ClientEvent::Unexpected);
}

#[test]
fn summary_cuts_by_bytes_on_a_boundary() {
    let mut e = SyncEngine::new_server(String::new(), "n".to_string());
    let text = format!("a{}", "é".repeat(25));
    e.edit(&text);
    // 51 bytes: cut at the boundary at byte 47, that is "a" and 23 "é".
    let expected = format!("SyncEngine[n]: doc='a{}...' (v1), shadow_checksum=0", "é".repeat(23));
    assert_eq!(e.describe(), expected);
}

#[test]
fn sync_results_carry_source_checksums() {
    let mut a = SyncEngine::new("one".to_string());
    let mut b = SyncEngine::new("one".to_string());
    a.edit("one two");
    b.edit("zero one");
    let (to_b, to_a) = a.sync_with(&mut b);
    assert_eq!(to_b.edits.checksum, diff_sync::diff::checksum("one"));
    assert_eq!(to_a.edits.checksum, diff_sync::diff::checksum("one two"));
    assert_eq!(a.text(), b.text());
}
