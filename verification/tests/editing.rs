use redit::commands::{EditorRequest, KeyCode, KeyInput, MouseInput, MouseKind};
use redit::document::{Document, Position};
use redit::editor::Editor;
use redit::menu::MenuKind;

const COLS: u16 = 80;
const ROWS: u16 = 24;

fn editor_with(lines: &[&str]) -> Editor {
    let text = lines.join("\n");
    Editor::new(Document::from_text(&text, "notes.md".to_string()))
}

fn key(code: KeyCode) -> KeyInput {
    KeyInput { code, ctrl: false, alt: false, shift: false }
}

fn ctrl(c: char) -> KeyInput {
    KeyInput { code: KeyCode::Char(c), ctrl: true, alt: false, shift: false }
}

fn alt(c: char) -> KeyInput {
    KeyInput { code: KeyCode::Char(c), ctrl: false, alt: true, shift: false }
}

fn type_text(ed: &mut Editor, text: &str) {
    for c in text.chars() {
        let req = ed.handle_key(key(KeyCode::Char(c)), COLS, ROWS);
        assert!(matches!(req, EditorRequest::Nothing));
    }
}

#[test]
fn new_editor_shows_help_message() {
    let ed = editor_with(&["abc"]);
    assert_eq!(ed.status, "Alt-F/E/S/H menus | Ctrl-S save | Ctrl-Q quit | Shift+Arrows select | F1 help");
    assert_eq!(ed.cursor, Position { x: 0, y: 0 });
    assert_eq!(ed.status_serial, 0);
}

#[test]
fn typing_then_backspace_gives_back_the_line() {
    let mut ed = editor_with(&["ac"]);
    ed.handle_key(key(KeyCode::Right), COLS, ROWS);
    ed.handle_key(key(KeyCode::Char('b')), COLS, ROWS);
    assert_eq!(ed.doc.lines, vec!["abc"]);
    assert_eq!(ed.cursor, Position { x: 2, y: 0 });
    ed.handle_key(key(KeyCode::Backspace), COLS, ROWS);
    assert_eq!(ed.doc.lines, vec!["ac"]);
    assert_eq!(ed.cursor, Position { x: 1, y: 0 });
}

#[test]
fn undo_restores_text_before_edit_and_redo_brings_it_back() {
    let mut ed = editor_with(&["hello"]);
    type_text(&mut ed, "X");
    assert_eq!(ed.doc.lines, vec!["Xhello"]);
    ed.handle_key(ctrl('z'), COLS, ROWS);
    assert_eq!(ed.doc.lines, vec!["hello"]);
    assert_eq!(ed.cursor, Position { x: 0, y: 0 });
    assert_eq!(ed.status, "Undo.");
    ed.handle_key(ctrl('y'), COLS, ROWS);
    assert_eq!(ed.doc.lines, vec!["Xhello"]);
    assert_eq!(ed.cursor, Position { x: 1, y: 0 });
    assert_eq!(ed.status, "Redo.");
}

#[test]
fn undo_and_redo_with_empty_history() {
    let mut ed = editor_with(&["x"]);
    ed.handle_key(ctrl('z'), COLS, ROWS);
    assert_eq!(ed.status, "Nothing to undo.");
    ed.handle_key(ctrl('y'), COLS, ROWS);
    assert_eq!(ed.status, "Nothing to redo.");
}

#[test]
fn ctrl_q_twice_quits_with_unsaved_changes() {
    let mut ed = editor_with(&["x"]);
    type_text(&mut ed, "y");
    assert!(ed.doc.modified);
    ed.handle_key(ctrl('q'), COLS, ROWS);
    assert!(!ed.should_quit);
    assert_eq!(ed.status, "Unsaved changes. Press Ctrl-Q again to force quit.");
    ed.handle_key(ctrl('q'), COLS, ROWS);
    assert!(ed.should_quit);
}

#[test]
fn ctrl_q_quits_at_once_without_changes() {
    let mut ed = editor_with(&["x"]);
    ed.handle_key(ctrl('q'), COLS, ROWS);
    assert!(ed.should_quit);
}

#[test]
fn enter_continues_ordered_list() {
    let mut ed = editor_with(&["  7. item"]);
    ed.handle_key(key(KeyCode::End), COLS, ROWS);
    ed.handle_key(key(KeyCode::Enter), COLS, ROWS);
    assert_eq!(ed.doc.lines, vec!["  7. item", "  8. "]);
    assert_eq!(ed.cursor, Position { x: 5, y: 1 });
}

#[test]
fn enter_continues_bullet_list_and_splits_line() {
    let mut ed = editor_with(&["- one two"]);
    for _ in 0..5 {
        ed.handle_key(key(KeyCode::Right), COLS, ROWS);
    }
    ed.handle_key(key(KeyCode::Enter), COLS, ROWS);
    assert_eq!(ed.doc.lines, vec!["- one", "-  two"]);
    assert_eq!(ed.cursor, Position { x: 2, y: 1 });
}

#[test]
fn enter_after_largest_list_number_cannot_go_on() {
    let line = format!("{}. item", usize::MAX);
    let mut ed = editor_with(&[line.as_str()]);
    ed.handle_key(key(KeyCode::End), COLS, ROWS);
    let req = ed.handle_key(key(KeyCode::Enter), COLS, ROWS);
    assert!(matches!(req, EditorRequest::ListNumberOverflow));
}

#[test]
fn tab_types_four_spaces() {
    let mut ed = editor_with(&["x"]);
    ed.handle_key(key(KeyCode::Tab), COLS, ROWS);
    assert_eq!(ed.doc.lines, vec!["    x"]);
    assert_eq!(ed.cursor, Position { x: 4, y: 0 });
}

#[test]
fn shift_arrows_select_and_typing_replaces_selection() {
    let mut ed = editor_with(&["hello world"]);
    let shift_right = KeyInput { code: KeyCode::Right, ctrl: false, alt: false, shift: true };
    for _ in 0..5 {
        ed.handle_key(shift_right, COLS, ROWS);
    }
    assert_eq!(ed.selected_text(), Some("hello".to_string()));
    type_text(&mut ed, "J");
    assert_eq!(ed.doc.lines, vec!["J world"]);
    assert_eq!(ed.selection_anchor, None);
}

#[test]
fn copy_cut_and_paste_lines() {
    let mut ed = editor_with(&["one", "two"]);
    ed.handle_key(ctrl('c'), COLS, ROWS);
    assert_eq!(ed.clipboard, "one");
    assert_eq!(ed.status, "Copied current line.");
    ed.handle_key(ctrl('x'), COLS, ROWS);
    assert_eq!(ed.doc.lines, vec!["two"]);
    assert_eq!(ed.status, "Cut current line.");
    ed.handle_key(key(KeyCode::End), COLS, ROWS);
    ed.handle_key(ctrl('v'), COLS, ROWS);
    assert_eq!(ed.doc.lines, vec!["twoone"]);
    assert_eq!(ed.status, "Pasted clipboard.");
}

#[test]
fn paste_with_empty_clipboard_says_so() {
    let mut ed = editor_with(&["a"]);
    ed.handle_key(ctrl('v'), COLS, ROWS);
    assert_eq!(ed.status, "Clipboard is empty.");
    assert_eq!(ed.doc.lines, vec!["a"]);
}

#[test]
fn cutting_the_only_line_empties_it() {
    let mut ed = editor_with(&["only"]);
    ed.handle_key(ctrl('x'), COLS, ROWS);
    assert_eq!(ed.doc.lines, vec![""]);
    assert_eq!(ed.clipboard, "only");
}

#[test]
fn ctrl_s_asks_to_save_and_finish_records_it() {
    let mut ed = Editor::new(Document::new_empty(None));
    type_text(&mut ed, "a");
    let req = ed.handle_key(ctrl('s'), COLS, ROWS);
    let path = match req {
        EditorRequest::Save(p) => p,
        _ => panic!("a save request was expected"),
    };
    assert_eq!(path, "redit.md");
    assert_eq!(ed.doc.text_for_save(), "a");
    ed.finish_save(path, Ok(()));
    assert_eq!(ed.status, "Saved redit.md");
    assert!(!ed.doc.modified);
    assert_eq!(ed.doc.file_path, Some("redit.md".to_string()));
}

#[test]
fn failed_save_shows_the_error() {
    let mut ed = editor_with(&["a"]);
    ed.finish_save("x.md".to_string(), Err("disk full".to_string()));
    assert_eq!(ed.status, "Save failed: disk full");
    assert_eq!(ed.doc.file_path, Some("notes.md".to_string()));
}

#[test]
fn save_as_popup_replaces_selected_path_and_submits_trimmed_path() {
    let mut ed = editor_with(&["a"]);
    let open = KeyInput { code: KeyCode::Char('S'), ctrl: true, alt: false, shift: true };
    ed.handle_key(open, COLS, ROWS);
    let popup = ed.save_as_popup.as_ref().expect("the popup opens");
    assert_eq!(popup.path_input, "notes.md");
    assert_eq!(popup.cursor, 8);
    assert!(popup.select_all);
    type_text(&mut ed, " b.md ");
    assert_eq!(ed.save_as_popup.as_ref().unwrap().path_input, " b.md ");
    let req = ed.handle_key(key(KeyCode::Enter), COLS, ROWS);
    let path = match req {
        EditorRequest::SaveAs(p) => p,
        _ => panic!("a save-as request was expected"),
    };
    assert_eq!(path, "b.md");
    ed.finish_save_as(path, Ok(()));
    assert!(ed.save_as_popup.is_none());
    assert_eq!(ed.status, "Saved b.md");
}

#[test]
fn save_as_with_empty_path_is_refused() {
    let mut ed = editor_with(&["a"]);
    ed.open_save_as_popup();
    ed.handle_key(key(KeyCode::Backspace), COLS, ROWS);
    assert_eq!(ed.save_as_popup.as_ref().unwrap().path_input, "");
    let req = ed.handle_key(key(KeyCode::Enter), COLS, ROWS);
    assert!(matches!(req, EditorRequest::Nothing));
    assert_eq!(ed.status, "Save As path cannot be empty.");
    assert!(ed.save_as_popup.is_some());
}

#[test]
fn save_as_failure_keeps_popup_open() {
    let mut ed = editor_with(&["a"]);
    ed.open_save_as_popup();
    ed.finish_save_as("x".to_string(), Err("denied".to_string()));
    assert_eq!(ed.status, "Save As failed: denied");
    assert!(ed.save_as_popup.is_some());
}

#[test]
fn save_as_cursor_keys_and_escape() {
    let mut ed = editor_with(&["a"]);
    ed.open_save_as_popup();
    ed.handle_key(key(KeyCode::Home), COLS, ROWS);
    ed.handle_key(key(KeyCode::Right), COLS, ROWS);
    type_text(&mut ed, "X");
    assert_eq!(ed.save_as_popup.as_ref().unwrap().path_input, "nXotes.md");
    ed.handle_key(key(KeyCode::Backspace), COLS, ROWS);
    assert_eq!(ed.save_as_popup.as_ref().unwrap().path_input, "notes.md");
    ed.handle_key(key(KeyCode::Delete), COLS, ROWS);
    assert_eq!(ed.save_as_popup.as_ref().unwrap().path_input, "ntes.md");
    ed.handle_key(key(KeyCode::Esc), COLS, ROWS);
    assert!(ed.save_as_popup.is_none());
    assert_eq!(ed.status, "Save As cancelled.");
}

#[test]
fn find_moves_to_next_match_and_reports_it() {
    let mut ed = editor_with(&["hello", "yellow fellow"]);
    ed.handle_key(ctrl('f'), COLS, ROWS);
    type_text(&mut ed, "llo");
    ed.handle_key(key(KeyCode::Enter), COLS, ROWS);
    assert_eq!(ed.cursor, Position { x: 2, y: 0 });
    assert_eq!(ed.status, "Found \"llo\" at Ln 1, Col 3.");
    assert!(ed.search_popup.is_none());
    assert_eq!(ed.last_search_query, "llo");
    ed.handle_key(ctrl('f'), COLS, ROWS);
    assert_eq!(ed.search_popup.as_ref().unwrap().find_input, "llo");
    ed.handle_key(key(KeyCode::Enter), COLS, ROWS);
    assert_eq!(ed.cursor, Position { x: 2, y: 1 });
    assert_eq!(ed.status, "Found \"llo\" at Ln 2, Col 3.");
}

#[test]
fn find_wraps_to_the_start() {
    let mut ed = editor_with(&["ab", "cd"]);
    ed.cursor = Position { x: 1, y: 1 };
    ed.find_next_occurrence("ab", COLS, ROWS);
    assert_eq!(ed.cursor, Position { x: 0, y: 0 });
}

#[test]
fn find_without_match_and_with_blank_query() {
    let mut ed = editor_with(&["abc"]);
    ed.handle_key(ctrl('f'), COLS, ROWS);
    type_text(&mut ed, "zz");
    ed.handle_key(key(KeyCode::Enter), COLS, ROWS);
    assert_eq!(ed.status, "No matches for \"zz\".");
    ed.handle_key(ctrl('f'), COLS, ROWS);
    ed.handle_key(key(KeyCode::Backspace), COLS, ROWS);
    ed.handle_key(key(KeyCode::Backspace), COLS, ROWS);
    type_text(&mut ed, "  ");
    ed.handle_key(key(KeyCode::Enter), COLS, ROWS);
    assert_eq!(ed.status, "Find text cannot be empty.");
    assert!(ed.search_popup.is_some());
}

#[test]
fn replace_popup_replaces_the_next_occurrence_and_counts_the_rest() {
    let mut ed = editor_with(&["aaa", "banana"]);
    ed.cursor = Position { x: 0, y: 0 };
    ed.handle_key(ctrl('r'), COLS, ROWS);
    type_text(&mut ed, "aa");
    ed.handle_key(key(KeyCode::Enter), COLS, ROWS);
    assert_eq!(ed.search_popup.as_ref().unwrap().active_field, redit::editor::SearchPopupField::Replace);
    type_text(&mut ed, "x");
    ed.handle_key(key(KeyCode::Enter), COLS, ROWS);
    assert_eq!(ed.doc.lines, vec!["xa", "banana"]);
    assert_eq!(ed.cursor, Position { x: 1, y: 0 });
    assert_eq!(ed.status, "Replaced \"aa\"; 0 remaining.");
    assert!(ed.search_popup.is_some());
    ed.handle_key(key(KeyCode::Enter), COLS, ROWS);
    assert_eq!(ed.status, "No matches for \"aa\".");
    assert!(ed.search_popup.is_some());
    ed.handle_key(key(KeyCode::Esc), COLS, ROWS);
    ed.handle_key(ctrl('z'), COLS, ROWS);
    assert_eq!(ed.doc.lines, vec!["aaa", "banana"]);
}

#[test]
fn replace_next_goes_one_by_one_and_wraps() {
    let mut ed = editor_with(&["a b a", "a"]);
    ed.cursor = Position { x: 0, y: 0 };
    ed.replace_next_occurrence("a", "o", COLS, ROWS);
    assert_eq!(ed.doc.lines, vec!["o b a", "a"]);
    assert_eq!(ed.cursor, Position { x: 1, y: 0 });
    assert_eq!(ed.status, "Replaced \"a\"; 2 remaining.");
    ed.replace_next_occurrence("a", "o", COLS, ROWS);
    assert_eq!(ed.doc.lines, vec!["o b o", "a"]);
    assert_eq!(ed.cursor, Position { x: 5, y: 0 });
    assert_eq!(ed.status, "Replaced \"a\"; 1 remaining.");
    ed.replace_next_occurrence("a", "o", COLS, ROWS);
    assert_eq!(ed.doc.lines, vec!["o b o", "o"]);
    assert_eq!(ed.cursor, Position { x: 1, y: 1 });
    assert_eq!(ed.status, "Replaced \"a\"; 0 remaining.");
    ed.cursor = Position { x: 3, y: 0 };
    ed.replace_next_occurrence("o", "ab", COLS, ROWS);
    assert_eq!(ed.doc.lines, vec!["o b ab", "o"]);
    assert_eq!(ed.cursor, Position { x: 6, y: 0 });
    assert_eq!(ed.status, "Replaced \"o\"; 2 remaining.");
    ed.replace_next_occurrence("", "x", COLS, ROWS);
    assert_eq!(ed.status, "Find text cannot be empty.");
}

#[test]
fn replace_all_with_many_matches_and_none() {
    let mut ed = editor_with(&["banana"]);
    ed.replace_all_occurrences("a", "o");
    assert_eq!(ed.doc.lines, vec!["bonono"]);
    assert_eq!(ed.status, "Replaced 3 occurrence(s) of \"a\".");
    ed.replace_all_occurrences("q", "o");
    assert_eq!(ed.status, "No matches for \"q\".");
}

#[test]
fn search_popup_tab_switches_field_in_replace_mode_only() {
    let mut ed = editor_with(&["a"]);
    ed.open_find_popup();
    ed.handle_key(key(KeyCode::Tab), COLS, ROWS);
    assert_eq!(ed.search_popup.as_ref().unwrap().active_field, redit::editor::SearchPopupField::Find);
    ed.handle_key(key(KeyCode::Esc), COLS, ROWS);
    assert_eq!(ed.status, "Search cancelled.");
    ed.open_replace_popup();
    ed.handle_key(key(KeyCode::Tab), COLS, ROWS);
    assert_eq!(ed.search_popup.as_ref().unwrap().active_field, redit::editor::SearchPopupField::Replace);
}

#[test]
fn alt_opens_menus_and_arrows_move_between_them() {
    let mut ed = editor_with(&["a"]);
    ed.handle_key(alt('F'), COLS, ROWS);
    assert_eq!(ed.active_menu, Some(MenuKind::File));
    assert_eq!(ed.status, "File menu opened");
    ed.handle_key(key(KeyCode::Left), COLS, ROWS);
    assert_eq!(ed.active_menu, Some(MenuKind::Help));
    ed.handle_key(key(KeyCode::Right), COLS, ROWS);
    assert_eq!(ed.active_menu, Some(MenuKind::File));
    ed.handle_key(key(KeyCode::Up), COLS, ROWS);
    assert_eq!(ed.active_menu_index, 2);
    ed.handle_key(key(KeyCode::Down), COLS, ROWS);
    assert_eq!(ed.active_menu_index, 0);
    ed.handle_key(key(KeyCode::Esc), COLS, ROWS);
    assert_eq!(ed.active_menu, None);
}

#[test]
fn menu_mnemonics_run_entries() {
    let mut ed = editor_with(&["a"]);
    ed.handle_key(alt('h'), COLS, ROWS);
    ed.handle_key(key(KeyCode::Char('k')), COLS, ROWS);
    assert_eq!(ed.active_menu, None);
    assert_eq!(ed.status, "Shortcuts: Ctrl-S save, Ctrl-Shift-S save as, Ctrl-Q quit, Ctrl-P preview.");
    ed.handle_key(alt('h'), COLS, ROWS);
    ed.handle_key(key(KeyCode::Down), COLS, ROWS);
    ed.handle_key(key(KeyCode::Down), COLS, ROWS);
    ed.handle_key(key(KeyCode::Enter), COLS, ROWS);
    assert_eq!(ed.status, "redit v0.1: terminal markup editor prototype in Rust.");
    ed.handle_key(alt('f'), COLS, ROWS);
    let req = ed.handle_key(key(KeyCode::Char('s')), COLS, ROWS);
    assert!(matches!(req, EditorRequest::Nothing));
    assert_eq!(ed.active_menu, Some(MenuKind::Search));
}

#[test]
fn unknown_key_in_menu_closes_it_and_edits() {
    let mut ed = editor_with(&["a"]);
    ed.handle_key(alt('e'), COLS, ROWS);
    type_text(&mut ed, "z");
    assert_eq!(ed.active_menu, None);
    assert_eq!(ed.doc.lines, vec!["za"]);
}

#[test]
fn f1_shows_keybindings_and_ctrl_p_toggles_preview() {
    let mut ed = editor_with(&["a"]);
    ed.handle_key(key(KeyCode::F(1)), COLS, ROWS);
    assert_eq!(ed.status, "Shortcuts: Ctrl-S save, Ctrl-Shift-S save as, Ctrl-Q quit, Ctrl-P preview.");
    ed.handle_key(ctrl('p'), COLS, ROWS);
    assert!(ed.preview_mode);
    assert_eq!(ed.status, "Preview enabled (Ctrl-P to hide).");
    ed.handle_key(ctrl('p'), COLS, ROWS);
    assert_eq!(ed.status, "Preview hidden.");
    ed.handle_key(ctrl('p'), 40, ROWS);
    assert_eq!(ed.status, "Preview enabled. Widen terminal to show split preview.");
}

#[test]
fn mouse_opens_menu_runs_entry_and_places_cursor() {
    let mut ed = editor_with(&["hello", "world"]);
    let down = |column: u16, row: u16| MouseInput { kind: MouseKind::LeftDown, column, row };
    ed.handle_mouse(down(22, 0), COLS, ROWS);
    assert_eq!(ed.active_menu, Some(MenuKind::Edit));
    ed.handle_mouse(down(5, 0), COLS, ROWS);
    assert_eq!(ed.active_menu, None);
    // Gutter of width 2 starts at column 1; the text at column 3.
    ed.handle_mouse(down(6, 3), COLS, ROWS);
    assert_eq!(ed.cursor, Position { x: 3, y: 1 });
    assert_eq!(ed.mouse_drag_anchor, Some(Position { x: 3, y: 1 }));
    ed.handle_mouse(MouseInput { kind: MouseKind::LeftDrag, column: 4, row: 2 }, COLS, ROWS);
    assert_eq!(ed.selected_text(), Some("ello\nwor".to_string()));
    ed.handle_mouse(MouseInput { kind: MouseKind::LeftUp, column: 4, row: 2 }, COLS, ROWS);
    assert_eq!(ed.mouse_drag_anchor, None);
    ed.handle_mouse(down(14, 0), COLS, ROWS);
    // The File dropdown: rows 2.. hold its entries; "Save" is the first.
    let req = ed.handle_mouse(down(16, 2), COLS, ROWS);
    match req {
        EditorRequest::Save(p) => assert_eq!(p, "notes.md"),
        _ => panic!("a save request was expected"),
    }
    assert_eq!(ed.active_menu, None);
}

#[test]
fn mouse_past_line_end_and_below_last_line() {
    let mut ed = editor_with(&["ab", "c"]);
    let down = MouseInput { kind: MouseKind::LeftDown, column: 40, row: 10 };
    ed.handle_mouse(down, COLS, ROWS);
    assert_eq!(ed.cursor, Position { x: 1, y: 1 });
    assert_eq!(ed.editor_position_from_mouse(0, 2, COLS, ROWS), None);
    assert_eq!(ed.editor_position_from_mouse(1, 2, COLS, ROWS), Some(Position { x: 0, y: 0 }));
    assert_eq!(ed.editor_position_from_mouse(5, 1, COLS, ROWS), None);
}

#[test]
fn scrolling_keeps_cursor_in_view() {
    let lines: Vec<String> = (0..100).map(|i| format!("line {i}")).collect();
    let refs: Vec<&str> = lines.iter().map(|s| s.as_str()).collect();
    let mut ed = editor_with(&refs);
    ed.handle_key(key(KeyCode::PageDown), COLS, ROWS);
    assert_eq!(ed.cursor.y, 19);
    assert_eq!(ed.offset.y, 1);
    ed.handle_key(key(KeyCode::PageDown), COLS, ROWS);
    assert_eq!(ed.cursor.y, 38);
    assert_eq!(ed.offset.y, 20);
    ed.handle_key(key(KeyCode::PageUp), COLS, ROWS);
    assert_eq!(ed.cursor.y, 19);
    assert_eq!(ed.offset.y, 19);
}

#[test]
fn home_end_and_line_wrap_moves() {
    let mut ed = editor_with(&["abc", "de"]);
    ed.handle_key(key(KeyCode::End), COLS, ROWS);
    assert_eq!(ed.cursor, Position { x: 3, y: 0 });
    ed.handle_key(key(KeyCode::Right), COLS, ROWS);
    assert_eq!(ed.cursor, Position { x: 0, y: 1 });
    ed.handle_key(key(KeyCode::Left), COLS, ROWS);
    assert_eq!(ed.cursor, Position { x: 3, y: 0 });
    ed.handle_key(key(KeyCode::Down), COLS, ROWS);
    assert_eq!(ed.cursor, Position { x: 2, y: 1 });
    ed.handle_key(key(KeyCode::Home), COLS, ROWS);
    assert_eq!(ed.cursor, Position { x: 0, y: 1 });
}

#[test]
fn delete_joins_lines_and_escape_clears_selection() {
    let mut ed = editor_with(&["ab", "cd"]);
    ed.handle_key(key(KeyCode::End), COLS, ROWS);
    ed.handle_key(key(KeyCode::Delete), COLS, ROWS);
    assert_eq!(ed.doc.lines, vec!["abcd"]);
    let shift_left = KeyInput { code: KeyCode::Left, ctrl: false, alt: false, shift: true };
    ed.handle_key(shift_left, COLS, ROWS);
    assert!(ed.selection_anchor.is_some());
    ed.handle_key(key(KeyCode::Esc), COLS, ROWS);
    assert!(ed.selection_anchor.is_none());
}

#[test]
fn newline_overflow_check_reads_text_before_cursor() {
    let line = format!("{}. x", usize::MAX);
    let mut ed = editor_with(&[line.as_str()]);
    assert!(!ed.newline_would_overflow());
    ed.cursor.x = line.chars().count();
    assert!(ed.newline_would_overflow());
}

#[test]
fn cutting_a_selection_and_pasting_it_gives_back_the_lines() {
    let mut ed = editor_with(&["alpha", "beta", "gamma"]);
    ed.cursor = Position { x: 3, y: 2 };
    ed.selection_anchor = Some(Position { x: 2, y: 0 });
    ed.handle_key(ctrl('x'), COLS, ROWS);
    assert_eq!(ed.doc.lines, vec!["alma"]);
    assert_eq!(ed.clipboard, "pha\nbeta\ngam");
    assert_eq!(ed.cursor, Position { x: 2, y: 0 });
    assert_eq!(ed.status, "Cut selection.");
    ed.handle_key(ctrl('v'), COLS, ROWS);
    assert_eq!(ed.doc.lines, vec!["alpha", "beta", "gamma"]);
    assert_eq!(ed.cursor, Position { x: 3, y: 2 });
    assert_eq!(ed.status, "Pasted clipboard.");
}

#[test]
fn find_from_looks_at_the_start_column_and_then_below() {
    let ed = editor_with(&["abcab", "xab"]);
    assert_eq!(ed.find_from("ab", 0, 0), Some(Position { x: 0, y: 0 }));
    assert_eq!(ed.find_from("ab", 0, 1), Some(Position { x: 3, y: 0 }));
    assert_eq!(ed.find_from("ab", 0, 4), Some(Position { x: 1, y: 1 }));
    assert_eq!(ed.find_from("ab", 1, 2), None);
    assert_eq!(ed.find_from("", 0, 0), None);
}
