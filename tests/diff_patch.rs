use diff_sync::diff::{checksum, diff, patch, Edit, EditList, PatchError};

#[test]
fn test_diff_and_patch() {
    let original = "The quick brown fox";
    let modified = "The quick red fox jumps";

    let edits = diff(original, modified);
    let result = patch(original, &edits).unwrap();

    assert_eq!(result, modified);
}

#[test]
fn test_empty_diff() {
    let text = "Same text";
    let edits = diff(text, text);
    assert!(edits.is_empty());
}

#[test]
fn test_fuzzy_patch() {
    let original = "Hello world";
    let modified = "Hello beautiful world";

    let edits = diff(original, modified);

    let different_text = "Hello cruel world";
    let result = patch(different_text, &edits).unwrap();

    assert!(result.contains("beautiful"));
}

#[test]
fn diff_emits_one_replace_over_the_middle() {
    let edits = diff("The quick brown fox", "The quick red fox jumps");
    assert_eq!(edits.len(), 1);
    assert_eq!(
        edits.edits[0],
        Edit::Replace { pos: 10, old_len: 9, new_text: "red fox jumps".to_string() }
    );
    assert_eq!(edits.checksum, checksum("The quick brown fox"));
}

#[test]
fn diff_from_empty_is_one_insert_at_zero() {
    let edits = diff("", "abc");
    assert_eq!(edits.edits, vec![Edit::Insert { pos: 0, text: "abc".to_string() }]);
    assert_eq!(patch("", &edits).unwrap(), "abc");
}

#[test]
fn diff_to_empty_is_one_delete_of_everything() {
    let edits = diff("héllo", "");
    assert_eq!(edits.edits, vec![Edit::Delete { pos: 0, len: 6 }]);
    assert_eq!(patch("héllo", &edits).unwrap(), "");
}

#[test]
fn diff_of_empty_texts_is_empty() {
    assert!(diff("", "").is_empty());
}

#[test]
fn diff_multibyte_offsets_fall_on_char_boundaries() {
    let from = "héllo";
    let edits = diff(from, "hello");
    assert_eq!(edits.edits, vec![Edit::Replace { pos: 1, old_len: 2, new_text: "e".to_string() }]);
    assert!(from.is_char_boundary(1));
    assert!(from.is_char_boundary(3));
    assert_eq!(patch(from, &edits).unwrap(), "hello");
}

#[test]
fn diff_insert_in_the_middle() {
    let edits = diff("Hello world", "Hello beautiful world");
    assert_eq!(edits.edits, vec![Edit::Insert { pos: 6, text: "beautiful ".to_string() }]);
}

#[test]
fn diff_delete_in_the_middle() {
    let edits = diff("Hello beautiful world", "Hello world");
    assert_eq!(edits.edits, vec![Edit::Delete { pos: 6, len: 10 }]);
}

#[test]
fn round_trip_on_several_pairs() {
    let pairs = [
        ("", ""),
        ("abc", "abc"),
        ("aaa", "aa"),
        ("aa", "aaa"),
        ("日本語のテキスト", "日本のテキスト!"),
        ("x", "y"),
        ("emoji 🎉 here", "emoji 🎊 there"),
    ];
    for (a, b) in pairs.iter() {
        let edits = diff(a, b);
        assert_eq!(patch(a, &edits).unwrap(), *b);
        assert_eq!(edits.is_empty(), a == b);
    }
}

#[test]
fn patch_with_no_edits_is_identity() {
    let empty = EditList::empty("whatever");
    assert_eq!(patch("Some text", &empty).unwrap(), "Some text");
    assert_eq!(empty.len(), 0);
}

#[test]
fn patch_clamps_positions_past_the_end() {
    let insert = EditList::new(vec![Edit::Insert { pos: 100, text: "!".to_string() }], "");
    assert_eq!(patch("abc", &insert).unwrap(), "abc!");
    let delete = EditList::new(vec![Edit::Delete { pos: 100, len: 5 }], "");
    assert_eq!(patch("abc", &delete).unwrap(), "abc");
    let replace = EditList::new(
        vec![Edit::Replace { pos: 2, old_len: 100, new_text: "Z".to_string() }],
        "",
    );
    assert_eq!(patch("abc", &replace).unwrap(), "abZ");
    let delete_tail = EditList::new(vec![Edit::Delete { pos: 1, len: usize::MAX }], "");
    assert_eq!(patch("abc", &delete_tail).unwrap(), "a");
}

#[test]
fn patch_applies_edits_last_first() {
    let list = EditList::new(
        vec![
            Edit::Insert { pos: 0, text: "<".to_string() },
            Edit::Insert { pos: 3, text: ">".to_string() },
        ],
        "abc",
    );
    assert_eq!(patch("abc", &list).unwrap(), "<abc>");
}

#[test]
fn patch_inside_a_character_is_an_invalid_position() {
    let list = EditList::new(vec![Edit::Insert { pos: 2, text: "x".to_string() }], "");
    assert_eq!(patch("héllo", &list), Err(PatchError::InvalidPosition));
    assert_eq!(PatchError::InvalidPosition.message(), "Invalid position");
    assert_eq!(PatchError::ChecksumMismatch.message(), "Checksum mismatch");
    assert_eq!(PatchError::InvalidEdit.message(), "Invalid edit");
}

#[test]
fn checksum_values() {
    assert_eq!(checksum(""), "0");
    // 5 bytes, code points summing to 500: 5 ^ 500 = 0x1f1.
    assert_eq!(checksum("Hello"), "1f1");
    // 2 bytes, code point 0xe9: 2 ^ 0xe9 = 0xeb.
    assert_eq!(checksum("é"), "eb");
}
