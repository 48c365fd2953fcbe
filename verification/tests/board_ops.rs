use kanban_board::Board;
use kanban_board::BoardError;

fn board_with_tasks(col_tasks: &[(&str, &str, &[&str])]) -> Board {
    // Each entry: (column id, column title, task ids). Task content is the
    // id in upper-case-free form with a suffix, just to be distinct.
    let mut b = Board { columns: Vec::new() };
    for (cid, title, tasks) in col_tasks {
        b.add_column_with_id(cid.to_string(), title.to_string());
        for tid in tasks.iter() {
            let r = b.add_task_with_id(
                &cid.to_string(),
                tid.to_string(),
                format!("content of {}", tid),
            );
            assert!(r.is_ok());
        }
    }
    b
}

fn task_ids_of(b: &Board, col_id: &str) -> Vec<String> {
    let col = b
        .columns
        .iter()
        .find(|c| c.id == col_id)
        .expect("column should exist");
    col.tasks.iter().map(|t| t.id.clone()).collect()
}

#[test]
fn default_board_has_three_empty_columns() {
    let b = Board::new();
    assert_eq!(b.columns.len(), 3);
    assert_eq!(b.columns[0].id, "todo");
    assert_eq!(b.columns[0].title, "To Do");
    assert_eq!(b.columns[1].id, "doing");
    assert_eq!(b.columns[1].title, "Doing");
    assert_eq!(b.columns[2].id, "done");
    assert_eq!(b.columns[2].title, "Done");
    assert!(b.columns.iter().all(|c| c.tasks.is_empty()));
}

#[test]
fn add_column_appends_with_generated_id() {
    let mut b = Board::new();
    b.add_column("Later".to_string());
    assert_eq!(b.columns.len(), 4);
    let last = b.columns.last().unwrap();
    assert_eq!(last.title, "Later");
    assert!(last.tasks.is_empty());
    assert_eq!(last.id.chars().count(), 36);
}

#[test]
fn add_task_appends_task_with_generated_id() {
    let mut b = Board::new();
    let r = b.add_task(&"todo".to_string(), "write the report".to_string());
    assert!(r.is_ok());
    assert_eq!(b.columns[0].tasks.len(), 1);
    let t = &b.columns[0].tasks[0];
    assert_eq!(t.content, "write the report");
    assert_eq!(t.id.chars().count(), 36);
    assert!(t.description.is_none());
    assert!(t.due_date.is_none());
    assert!(t.labels.is_empty());
    assert!(t.comments.is_empty());
    assert!(t.attachments.is_empty());
}

#[test]
fn add_task_to_missing_column_fails_and_changes_nothing() {
    let mut b = Board::new();
    let before = b.clone();
    let r = b.add_task(&"nowhere".to_string(), "lost".to_string());
    assert_eq!(r, Err(BoardError::ColumnNotFound));
    assert_eq!(b, before);
}

#[test]
fn move_task_within_one_column_reinserts_after_removal() {
    // Column [A, B, C]; moving index 0 to index 2 yields [B, C, A]: the
    // destination index counts positions with the moved task removed.
    let mut b = board_with_tasks(&[("col", "Col", &["a", "b", "c"])]);
    let r = b.move_task(&"col".to_string(), &"col".to_string(), 0, 2);
    assert!(r.is_ok());
    assert_eq!(task_ids_of(&b, "col"), vec!["b", "c", "a"]);
}

#[test]
fn move_task_across_columns() {
    // Source [A, B], dest [X]; moving source index 0 to dest index 1
    // yields source [B], dest [X, A].
    let mut b = board_with_tasks(&[("src", "Source", &["a", "b"]), ("dst", "Dest", &["x"])]);
    let r = b.move_task(&"src".to_string(), &"dst".to_string(), 0, 1);
    assert!(r.is_ok());
    assert_eq!(task_ids_of(&b, "src"), vec!["b"]);
    assert_eq!(task_ids_of(&b, "dst"), vec!["x", "a"]);
}

#[test]
fn move_task_out_of_range_source_index_fails_and_changes_nothing() {
    let mut b = board_with_tasks(&[("src", "Source", &["a", "b"]), ("dst", "Dest", &["x"])]);
    let before = b.clone();
    let r = b.move_task(&"src".to_string(), &"dst".to_string(), 2, 0);
    assert_eq!(r, Err(BoardError::IndexOutOfBounds));
    assert_eq!(b, before);
}

#[test]
fn move_task_missing_column_fails_and_changes_nothing() {
    let mut b = board_with_tasks(&[("src", "Source", &["a"])]);
    let before = b.clone();
    let r = b.move_task(&"src".to_string(), &"absent".to_string(), 0, 0);
    assert_eq!(r, Err(BoardError::ColumnNotFound));
    assert_eq!(b, before);
    let r2 = b.move_task(&"absent".to_string(), &"src".to_string(), 0, 0);
    assert_eq!(r2, Err(BoardError::ColumnNotFound));
    assert_eq!(b, before);
}

#[test]
fn move_task_clamps_large_destination_index_to_append() {
    let mut b = board_with_tasks(&[("src", "Source", &["a", "b"]), ("dst", "Dest", &["x"])]);
    let r = b.move_task(&"src".to_string(), &"dst".to_string(), 0, 99);
    assert!(r.is_ok());
    assert_eq!(task_ids_of(&b, "dst"), vec!["x", "a"]);
}

#[test]
fn update_task_replaces_content_only() {
    let mut b = board_with_tasks(&[("col", "Col", &["a", "b"])]);
    b.update_task(&"b".to_string(), "rewritten".to_string());
    assert_eq!(b.columns[0].tasks[1].content, "rewritten");
    assert_eq!(b.columns[0].tasks[0].content, "content of a");
}

#[test]
fn update_task_missing_id_is_a_no_op() {
    let mut b = board_with_tasks(&[("col", "Col", &["a"])]);
    let before = b.clone();
    b.update_task(&"ghostly".to_string(), "rewritten".to_string());
    assert_eq!(b, before);
}

#[test]
fn update_task_details_replaces_only_provided_fields() {
    let mut b = board_with_tasks(&[("col", "Col", &["a"])]);
    let r = b.update_task_details(
        &"a".to_string(),
        None,
        Some("a longer story".to_string()),
        Some("2024-06-01".to_string()),
        Some(vec!["red".to_string(), "urgent".to_string()]),
    );
    assert!(r.is_ok());
    let t = &b.columns[0].tasks[0];
    assert_eq!(t.content, "content of a");
    assert_eq!(t.description.as_deref(), Some("a longer story"));
    assert_eq!(t.due_date.as_deref(), Some("2024-06-01"));
    assert_eq!(t.labels, vec!["red".to_string(), "urgent".to_string()]);
}

#[test]
fn update_task_details_all_absent_leaves_task_unchanged() {
    let mut b = board_with_tasks(&[("col", "Col", &["a"])]);
    let before = b.clone();
    let r = b.update_task_details(&"a".to_string(), None, None, None, None);
    assert!(r.is_ok());
    assert_eq!(b, before);
}

#[test]
fn update_task_details_missing_task_fails_and_changes_nothing() {
    let mut b = board_with_tasks(&[("col", "Col", &["a"])]);
    let before = b.clone();
    let r = b.update_task_details(
        &"zz".to_string(),
        Some("x".to_string()),
        None,
        None,
        None,
    );
    assert_eq!(r, Err(BoardError::TaskNotFound));
    assert_eq!(b, before);
}

#[test]
fn add_comment_appends_with_fixed_author() {
    let mut b = board_with_tasks(&[("col", "Col", &["a"])]);
    let r = b.add_comment(&"a".to_string(), "first!".to_string());
    assert!(r.is_ok());
    let t = &b.columns[0].tasks[0];
    assert_eq!(t.comments.len(), 1);
    assert_eq!(t.comments[0].author, "User");
    assert_eq!(t.comments[0].content, "first!");
    assert_eq!(t.comments[0].id.chars().count(), 36);
}

#[test]
fn add_comment_to_missing_task_fails() {
    let mut b = board_with_tasks(&[("col", "Col", &["a"])]);
    let before = b.clone();
    let r = b.add_comment(&"zz".to_string(), "lost".to_string());
    assert_eq!(r, Err(BoardError::TaskNotFound));
    assert_eq!(b, before);
}

#[test]
fn add_attachment_appends_metadata() {
    let mut b = board_with_tasks(&[("col", "Col", &["a"])]);
    let r = b.add_attachment(
        &"a".to_string(),
        "/data/specs.pdf".to_string(),
        "specs.pdf".to_string(),
        "application/pdf".to_string(),
    );
    assert!(r.is_ok());
    let t = &b.columns[0].tasks[0];
    assert_eq!(t.attachments.len(), 1);
    assert_eq!(t.attachments[0].file_path, "/data/specs.pdf");
    assert_eq!(t.attachments[0].file_name, "specs.pdf");
    assert_eq!(t.attachments[0].mime_type, "application/pdf");
    assert_eq!(t.attachments[0].id.chars().count(), 36);
}

#[test]
fn add_attachment_to_missing_task_fails() {
    let mut b = board_with_tasks(&[("col", "Col", &["a"])]);
    let r = b.add_attachment(
        &"zz".to_string(),
        "/p".to_string(),
        "n".to_string(),
        "m".to_string(),
    );
    assert_eq!(r, Err(BoardError::TaskNotFound));
}

#[test]
fn task_ids_present_are_exactly_those_added_and_not_deleted() {
    let mut b = board_with_tasks(&[("todo", "To Do", &[]), ("doing", "Doing", &[])]);
    b.add_task_with_id(&"todo".to_string(), "a".to_string(), "one".to_string())
        .unwrap();
    b.add_task_with_id(&"todo".to_string(), "b".to_string(), "two".to_string())
        .unwrap();
    b.add_task_with_id(&"doing".to_string(), "c".to_string(), "three".to_string())
        .unwrap();
    b.delete_task(&"b".to_string());
    let mut ids: Vec<String> = b
        .columns
        .iter()
        .flat_map(|c| c.tasks.iter().map(|t| t.id.clone()))
        .collect();
    ids.sort();
    assert_eq!(ids, vec!["a".to_string(), "c".to_string()]);
}

#[test]
fn delete_task_missing_id_is_a_no_op() {
    let mut b = board_with_tasks(&[("col", "Col", &["a", "b"])]);
    let before = b.clone();
    b.delete_task(&"zz".to_string());
    assert_eq!(b, before);
}

#[test]
fn delete_column_removes_its_tasks_and_nothing_else() {
    let mut b = board_with_tasks(&[("one", "One", &["a", "b"]), ("two", "Two", &["c"])]);
    b.delete_column(&"one".to_string());
    assert_eq!(b.columns.len(), 1);
    assert_eq!(b.columns[0].id, "two");
    assert_eq!(task_ids_of(&b, "two"), vec!["c"]);
}

#[test]
fn delete_column_missing_id_is_a_no_op() {
    let mut b = board_with_tasks(&[("one", "One", &["a"])]);
    let before = b.clone();
    b.delete_column(&"zz".to_string());
    assert_eq!(b, before);
}

#[test]
fn repeated_add_task_grows_count_by_one_each_time() {
    let mut b = Board::new();
    for i in 0..5 {
        let r = b.add_task(&"todo".to_string(), format!("job {}", i));
        assert!(r.is_ok());
    }
    assert_eq!(b.columns[0].tasks.len(), 5);
}

#[test]
fn snapshot_returns_an_equal_independent_copy() {
    let mut b = board_with_tasks(&[("col", "Col", &["a"])]);
    let copy = b.snapshot();
    assert_eq!(copy, b);
    b.update_task(&"a".to_string(), "changed".to_string());
    assert_eq!(copy.columns[0].tasks[0].content, "content of a");
}
