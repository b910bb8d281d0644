use redit::document::{find_substring_at_char, Document, Position};
use redit::history::UndoRedoHistory;
use redit::markdown::{markdown_list_continuation, markdown_styles_for_line, MdStyle};
use redit::selection::{
    delete_selection_in_lines, normalized_selection, selected_text_in_lines, SelectionRange,
};

#[test]
fn delete_forward_merges_lines_at_eol() {
    let mut doc = Document::new_empty(None);
    doc.lines = vec!["abc".to_string(), "def".to_string()];
    doc.delete_forward(Position { x: 3, y: 0 });
    assert_eq!(doc.lines, vec!["abcdef"]);
}

#[test]
fn backspace_merges_with_previous_line() {
    let mut doc = Document::new_empty(None);
    doc.lines = vec!["abc".to_string(), "def".to_string()];
    let cursor = doc.backspace(Position { x: 0, y: 1 });
    assert_eq!(doc.lines, vec!["abcdef"]);
    assert_eq!(cursor, Some(Position { x: 3, y: 0 }));
}

#[test]
fn find_substring_uses_character_offsets() {
    let line = "héllo hello";
    assert_eq!(find_substring_at_char(line, "hello", 0), Some(6));
    assert_eq!(find_substring_at_char(line, "hé", 0), Some(0));
}

#[test]
fn undo_and_redo_round_trip() {
    let mut history = UndoRedoHistory::default();
    let mut current = 1i32;

    history.begin_edit(current);
    current = 2;

    let undone = history
        .undo(current)
        .expect("undo should return a snapshot");
    assert_eq!(undone, 1);
    current = undone;

    let redone = history
        .redo(current)
        .expect("redo should return a snapshot");
    assert_eq!(redone, 2);
}

#[test]
fn begin_edit_clears_redo_stack() {
    let mut history = UndoRedoHistory::default();

    history.begin_edit(1);
    let undo = history.undo(2).expect("undo should exist");
    assert_eq!(undo, 1);
    let _ = history.redo(1).expect("redo should exist");

    history.begin_edit(3);
    assert!(history.redo(4).is_none());
}

#[test]
fn list_continuation_for_unordered_list() {
    assert_eq!(markdown_list_continuation("- item"), Some("- ".to_string()));
}

#[test]
fn list_continuation_for_ordered_list() {
    assert_eq!(
        markdown_list_continuation("  3. item"),
        Some("  4. ".to_string())
    );
}

#[test]
fn heading_marker_styles_markers_and_content() {
    let chars: Vec<char> = "# Title".chars().collect();
    let styles = markdown_styles_for_line(&chars, false, false, false);
    assert_eq!(styles[0], MdStyle::Marker);
    assert_eq!(styles[2], MdStyle::Heading);
}

#[test]
fn selected_text_single_line() {
    let lines = vec!["hello world".to_string()];
    let selection = SelectionRange {
        start: Position { x: 0, y: 0 },
        end: Position { x: 5, y: 0 },
    };
    assert_eq!(selected_text_in_lines(&lines, selection), "hello");
}

#[test]
fn selected_text_multi_line() {
    let lines = vec!["alpha".to_string(), "beta".to_string(), "gamma".to_string()];
    let selection = SelectionRange {
        start: Position { x: 2, y: 0 },
        end: Position { x: 2, y: 2 },
    };
    assert_eq!(selected_text_in_lines(&lines, selection), "pha\nbeta\nga");
}

#[test]
fn delete_selection_multi_line_merges_edges() {
    let mut lines = vec!["alpha".to_string(), "beta".to_string(), "gamma".to_string()];
    let selection = SelectionRange {
        start: Position { x: 2, y: 0 },
        end: Position { x: 2, y: 2 },
    };
    let cursor = delete_selection_in_lines(&mut lines, selection);
    assert_eq!(lines, vec!["almma"]);
    assert_eq!(cursor, Position { x: 2, y: 0 });
}

#[test]
fn normalize_selection_orders_points() {
    let anchor = Some(Position { x: 10, y: 3 });
    let cursor = Position { x: 2, y: 1 };
    let normalized = normalized_selection(anchor, cursor).expect("range should exist");
    assert_eq!(normalized.start, cursor);
    assert_eq!(normalized.end, Position { x: 10, y: 3 });
}
