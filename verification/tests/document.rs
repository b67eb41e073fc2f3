use jedit::command::commands::{DeleteCommand, EditCommand, InsertCommand};
use jedit::document::editable::Document;
use jedit::error::EditError;

fn loaded(text: &str) -> Document {
    let mut doc = Document::new();
    assert_eq!(doc.load(text.to_string()), Ok(()));
    doc
}

fn insert(pos: usize, text: &str) -> EditCommand {
    EditCommand::Insert(InsertCommand::new(pos, text.to_string()))
}

fn delete(pos: usize, len: usize) -> EditCommand {
    EditCommand::Delete(DeleteCommand::new(pos, len))
}

#[test]
fn new_document_has_one_empty_line_and_no_history() {
    let mut doc = Document::new();
    assert_eq!(doc.save_content(), "");
    assert_eq!(doc.line_count(), 1);
    assert_eq!(doc.get_line(0), Some(""));
    assert_eq!(doc.get_line(1), None);
    assert_eq!(doc.undo(), Err(EditError::NothingToUndo));
    assert_eq!(doc.redo(), Err(EditError::NothingToRedo));
}

#[test]
fn load_two_lines_separated_by_line_feed() {
    let doc = loaded("ab\ncd");
    assert_eq!(doc.line_count(), 2);
    assert_eq!(doc.get_line(0), Some("ab"));
    assert_eq!(doc.get_line(1), Some("cd"));
}

#[test]
fn load_two_lines_separated_by_crlf() {
    let doc = loaded("a\r\nb");
    assert_eq!(doc.line_count(), 2);
    assert_eq!(doc.get_line(0), Some("a"));
    assert_eq!(doc.get_line(1), Some("b"));
}

#[test]
fn insert_undo_redo_on_hello() {
    let mut doc = loaded("hello");
    assert_eq!(doc.apply(insert(5, " world")), Ok(()));
    assert_eq!(doc.save_content(), "hello world");
    assert_eq!(doc.undo(), Ok(()));
    assert_eq!(doc.save_content(), "hello");
    assert_eq!(doc.redo(), Ok(()));
    assert_eq!(doc.save_content(), "hello world");
}

#[test]
fn delete_past_the_end_fails_and_leaves_content() {
    let mut doc = loaded("hello");
    assert_eq!(doc.apply(delete(1, 10)), Err(EditError::OutOfRange));
    assert_eq!(doc.save_content(), "hello");
    assert_eq!(doc.undo(), Err(EditError::NothingToUndo));
}

#[test]
fn redo_after_new_edit_fails_with_nothing_to_redo() {
    let mut doc = loaded("hello");
    assert_eq!(doc.apply(insert(5, " world")), Ok(()));
    assert_eq!(doc.undo(), Ok(()));
    assert_eq!(doc.apply(delete(0, 1)), Ok(()));
    assert_eq!(doc.redo(), Err(EditError::NothingToRedo));
    assert_eq!(doc.save_content(), "ello");
}

#[test]
fn redo_after_failed_edit_still_works() {
    let mut doc = loaded("hello");
    assert_eq!(doc.apply(insert(5, " world")), Ok(()));
    assert_eq!(doc.undo(), Ok(()));
    assert_eq!(doc.apply(delete(1, 10)), Err(EditError::OutOfRange));
    assert_eq!(doc.redo(), Ok(()));
    assert_eq!(doc.save_content(), "hello world");
}

#[test]
fn load_starts_a_new_history() {
    let mut doc = loaded("hello");
    assert_eq!(doc.apply(insert(0, "x")), Ok(()));
    assert_eq!(doc.apply(insert(0, "y")), Ok(()));
    assert_eq!(doc.undo(), Ok(()));
    assert_eq!(doc.load("other".to_string()), Ok(()));
    assert_eq!(doc.save_content(), "other");
    assert_eq!(doc.undo(), Err(EditError::NothingToUndo));
    assert_eq!(doc.redo(), Err(EditError::NothingToRedo));
    assert_eq!(doc.save_content(), "other");
}

#[test]
fn clear_empties_text_and_history() {
    let mut doc = loaded("a\nb");
    assert_eq!(doc.apply(insert(3, "c")), Ok(()));
    doc.clear();
    assert_eq!(doc.save_content(), "");
    assert_eq!(doc.line_count(), 1);
    assert_eq!(doc.undo(), Err(EditError::NothingToUndo));
    assert_eq!(doc.redo(), Err(EditError::NothingToRedo));
}

#[test]
fn lines_follow_the_edits() {
    let mut doc = loaded("one\ntwo");
    assert_eq!(doc.apply(insert(3, "\r\nand a half")), Ok(()));
    assert_eq!(doc.line_count(), 3);
    assert_eq!(doc.get_line(0), Some("one"));
    assert_eq!(doc.get_line(1), Some("and a half"));
    assert_eq!(doc.get_line(2), Some("two"));
    assert_eq!(doc.apply(delete(0, 5)), Ok(()));
    assert_eq!(doc.line_count(), 2);
    assert_eq!(doc.get_line(0), Some("and a half"));
    assert_eq!(doc.undo(), Ok(()));
    assert_eq!(doc.undo(), Ok(()));
    assert_eq!(doc.line_count(), 2);
    assert_eq!(doc.get_line(0), Some("one"));
    assert_eq!(doc.get_line(1), Some("two"));
    assert_eq!(doc.get_line(2), None);
}

#[test]
fn undo_walks_back_to_the_loaded_text() {
    let mut doc = loaded("héllo wörld");
    let edits = vec![
        insert(0, "«"),
        delete(3, 2),
        insert(6, "\n"),
        delete(0, 2),
        insert(4, "日本語"),
        delete(4, 9),
    ];
    let mut texts = vec![doc.save_content().to_string()];
    for edit in edits {
        assert_eq!(doc.apply(edit), Ok(()));
        texts.push(doc.save_content().to_string());
    }
    for i in (0..texts.len() - 1).rev() {
        assert_eq!(doc.undo(), Ok(()));
        assert_eq!(doc.save_content(), texts[i]);
    }
    assert_eq!(doc.undo(), Err(EditError::NothingToUndo));
    for i in 1..texts.len() {
        assert_eq!(doc.redo(), Ok(()));
        assert_eq!(doc.save_content(), texts[i]);
    }
    assert_eq!(doc.redo(), Err(EditError::NothingToRedo));
}

#[test]
fn replaying_the_executed_commands_from_empty_gives_the_content() {
    let script: Vec<(bool, usize, usize, &str)> = vec![
        (true, 0, 0, "hello"),
        (true, 5, 0, " world\n"),
        (false, 0, 6, ""),
        (true, 0, 0, "brave new "),
        (false, 10, 3, ""),
        (true, 12, 0, "\r\nsecond line"),
    ];
    let command = |step: &(bool, usize, usize, &str)| {
        if step.0 {
            insert(step.1, step.3)
        } else {
            delete(step.1, step.2)
        }
    };
    let mut doc = Document::new();
    let mut kept: Vec<(bool, usize, usize, &str)> = Vec::new();
    for step in &script {
        assert_eq!(doc.apply(command(step)), Ok(()));
        kept.push(*step);
    }
    assert_eq!(doc.undo(), Ok(()));
    kept.pop();
    assert_eq!(doc.undo(), Ok(()));
    kept.pop();
    assert_eq!(doc.apply(insert(0, ">> ")), Ok(()));
    kept.push((true, 0, 0, ">> "));
    assert_eq!(doc.apply(delete(100, 1)), Err(EditError::OutOfRange));

    let mut replayed = Document::new();
    for step in &kept {
        assert_eq!(replayed.apply(command(step)), Ok(()));
    }
    assert_eq!(replayed.save_content(), doc.save_content());
    assert_eq!(doc.save_content(), ">> brave new world\n");
}

#[test]
fn failed_edit_inside_a_character_leaves_content_and_history() {
    let mut doc = loaded("日本");
    assert_eq!(doc.apply(insert(6, "語")), Ok(()));
    assert_eq!(doc.apply(insert(1, "x")), Err(EditError::InvalidBoundary));
    assert_eq!(doc.apply(delete(0, 4)), Err(EditError::InvalidBoundary));
    assert_eq!(doc.save_content(), "日本語");
    assert_eq!(doc.undo(), Ok(()));
    assert_eq!(doc.save_content(), "日本");
}
