use kanban_board::Board;
use kanban_board::snapshot::decode_board;
use kanban_board::snapshot::encode_board;

fn rich_board() -> Board {
    let mut b = Board::new();
    b.add_task_with_id(&"todo".to_string(), "t1".to_string(), "plan the week".to_string())
        .unwrap();
    b.add_task_with_id(&"doing".to_string(), "t2".to_string(), "write: code".to_string())
        .unwrap();
    b.update_task_details(
        &"t1".to_string(),
        None,
        Some("a description with 3:14 and :: colons".to_string()),
        Some("2024-12-31".to_string()),
        Some(vec!["red".to_string(), "".to_string(), "café".to_string()]),
    )
    .unwrap();
    b.add_comment_with_id(
        &"t2".to_string(),
        "c1".to_string(),
        "2024-06-01T10:00:00+00:00".to_string(),
        "looks good".to_string(),
    )
    .unwrap();
    b.add_attachment_with_id(
        &"t2".to_string(),
        "at1".to_string(),
        "/tmp/sketch.png".to_string(),
        "sketch.png".to_string(),
        "image/png".to_string(),
    )
    .unwrap();
    b
}

#[test]
fn round_trip_preserves_the_whole_board() {
    let b = rich_board();
    let text = encode_board(&b);
    let restored = decode_board(text.as_str()).expect("snapshot should decode");
    assert_eq!(restored, b);
}

#[test]
fn round_trip_of_the_default_board() {
    let b = Board::new();
    let restored = decode_board(encode_board(&b).as_str()).expect("snapshot should decode");
    assert_eq!(restored, b);
}

#[test]
fn round_trip_of_an_empty_board() {
    let b = Board { columns: Vec::new() };
    let restored = decode_board(encode_board(&b).as_str()).expect("snapshot should decode");
    assert_eq!(restored, b);
}

#[test]
fn encoding_is_the_exact_length_prefixed_text() {
    let mut b = Board { columns: Vec::new() };
    b.add_column_with_id("c".to_string(), "T".to_string());
    // One column: count 1, then id "c", title "T", and zero tasks.
    assert_eq!(encode_board(&b), "1:1:c1:T0:");
}

#[test]
fn encoding_a_task_spells_out_every_field() {
    let mut b = Board { columns: Vec::new() };
    b.add_column_with_id("c".to_string(), "T".to_string());
    b.add_task_with_id(&"c".to_string(), "t".to_string(), "do it".to_string())
        .unwrap();
    // Task: id "t", content "do it", absent description and due date,
    // then empty labels, comments, and attachments.
    assert_eq!(encode_board(&b), "1:1:c1:T1:1:t5:do itnn0:0:0:");
}

#[test]
fn malformed_snapshots_are_rejected() {
    assert!(decode_board("").is_none());
    assert!(decode_board("garbage").is_none());
    assert!(decode_board("3:").is_none());
    assert!(decode_board("1:1:c1:T").is_none());
    // Trailing characters after a valid board are rejected too.
    assert!(decode_board("1:1:c1:T0:extra").is_none());
    // A digit run with no colon is rejected.
    assert!(decode_board("123").is_none());
}

#[test]
fn decoding_an_edited_snapshot_restores_the_edit() {
    // The decoder really reads the text: a title edited in the snapshot
    // comes back edited.
    let text = "1:1:c5:Later0:";
    let b = decode_board(text).expect("snapshot should decode");
    assert_eq!(b.columns.len(), 1);
    assert_eq!(b.columns[0].title, "Later");
}
