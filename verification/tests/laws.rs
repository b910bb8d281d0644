use redit::ansi::{apply_sgr_sequence, base_sgr_style, SgrStyle, TermColor, UNDERLINED};
use redit::commands::{ctrl_key_action, drop_last_char, insert_str_at, shift_only, KeyCode, KeyInput};
use redit::document::{Document, Position};
use redit::markdown::{apply_double_delimited_style, list_number_overflows, markdown_list_continuation, MdStyle};
use redit::menu::{menu_at_column, menu_item_index_by_mnemonic, next_menu, prev_menu, MenuAction, MenuKind};
use redit::search::{find_in_line_from, find_in_lines_from, replace_in_all_lines, replace_in_line};
use redit::selection::{
    delete_selection_in_lines, normalized_selection, selected_text_in_lines, SelectionRange,
};
use redit::textfmt::{is_markdown_path, strip_ansi_escape_codes, trim_text};

#[test]
fn replacing_a_text_by_itself_changes_nothing() {
    assert_eq!(replace_in_line("banana", "an", "an"), ("banana".to_string(), 2));
    assert_eq!(replace_in_line("", "an", "an"), (String::new(), 0));
}

#[test]
fn replacement_takes_occurrences_left_to_right_without_overlap() {
    assert_eq!(replace_in_line("aaaa", "aa", "b"), ("bb".to_string(), 2));
    assert_eq!(replace_in_line("aaa", "aa", "b"), ("ba".to_string(), 1));
    assert_eq!(replace_in_line("héé", "é", "e"), ("hee".to_string(), 2));
    assert_eq!(replace_in_line("abc", "", "x"), ("abc".to_string(), 0));
    let lines = vec!["xa".to_string(), "a".to_string(), "b".to_string()];
    let (out, n) = replace_in_all_lines(&lines, "a", "yy");
    assert_eq!(out, vec!["xyy", "yy", "b"]);
    assert_eq!(n, 2);
}

#[test]
fn find_gives_an_occurrence_at_or_after_the_start() {
    assert_eq!(find_in_line_from("abcabc", "bc", 2), Some(4));
    assert_eq!(find_in_line_from("abcabc", "bc", 5), None);
    assert_eq!(find_in_line_from("abc", "", 0), None);
    let lines = vec!["no".to_string(), "yes no".to_string()];
    assert_eq!(find_in_lines_from(&lines, "no", 0, 1), Some(Position { x: 4, y: 1 }));
    assert_eq!(find_in_lines_from(&lines, "no", 0, 0), Some(Position { x: 0, y: 0 }));
    assert_eq!(find_in_lines_from(&lines, "zz", 0, 0), None);
}

#[test]
fn selection_is_ordered_and_symmetric() {
    let a = Position { x: 4, y: 2 };
    let c = Position { x: 1, y: 0 };
    let s1 = normalized_selection(Some(a), c).expect("a selection");
    let s2 = normalized_selection(Some(c), a).expect("a selection");
    assert_eq!(s1, s2);
    assert_eq!(s1.start, c);
    assert_eq!(normalized_selection(Some(a), a), None);
    assert_eq!(normalized_selection(None, a), None);
}

#[test]
fn next_menu_undoes_prev_menu() {
    for m in [MenuKind::File, MenuKind::Edit, MenuKind::Search, MenuKind::Help] {
        assert_eq!(next_menu(prev_menu(m)), m);
        assert_eq!(next_menu(next_menu(next_menu(next_menu(m)))), m);
    }
    assert_eq!(prev_menu(MenuKind::File), MenuKind::Help);
}

#[test]
fn menu_lookup_by_column_and_mnemonic() {
    assert_eq!(menu_at_column(13), Some(MenuKind::File));
    assert_eq!(menu_at_column(19), None);
    assert_eq!(menu_at_column(44), Some(MenuKind::Help));
    assert_eq!(menu_at_column(45), None);
    assert_eq!(menu_item_index_by_mnemonic(MenuKind::Edit, 'p'), Some(4));
    assert_eq!(menu_item_index_by_mnemonic(MenuKind::Edit, 'z'), None);
}

#[test]
fn stripped_text_holds_no_escape() {
    assert_eq!(strip_ansi_escape_codes("\u{1b}[31mred\u{1b}[0m"), "red");
    assert_eq!(strip_ansi_escape_codes("a\u{1b}b\u{1b}[12"), "ab");
    assert!(!strip_ansi_escape_codes("\u{1b}\u{1b}[m\u{1b}x").contains('\u{1b}'));
}

#[test]
fn reset_code_gives_the_panel_style() {
    let mut st = SgrStyle { fg: TermColor::Rgb(1, 2, 3), bg: TermColor::Indexed(4), add: UNDERLINED, sub: 0 };
    apply_sgr_sequence("0", &mut st);
    assert_eq!(st, base_sgr_style());
}

#[test]
fn saving_and_reading_back_gives_the_text() {
    let doc = Document::from_text("a\nb\n", "f".to_string());
    assert_eq!(doc.lines, vec!["a", "b", ""]);
    assert_eq!(doc.text_for_save(), "a\nb\n");
    let empty = Document::from_text("", "f".to_string());
    assert_eq!(empty.lines, vec![""]);
    assert_eq!(empty.text_for_save(), "\n");
    let reread = Document::from_text(&empty.text_for_save(), "f".to_string());
    assert_eq!(reread.lines, vec!["", ""]);
}

#[test]
fn list_continuation_keeps_indentation() {
    assert_eq!(markdown_list_continuation("   * x"), Some("   * ".to_string()));
    assert_eq!(markdown_list_continuation("\t+ y"), Some("\t+ ".to_string()));
    assert_eq!(markdown_list_continuation("- "), None);
    assert_eq!(markdown_list_continuation("9. z"), Some("10. ".to_string()));
    assert_eq!(markdown_list_continuation("99999999999999999999999. z"), None);
    assert_eq!(markdown_list_continuation("text"), None);
    assert!(!list_number_overflows("3. x"));
    assert!(list_number_overflows(&format!("  {}. x", usize::MAX)));
}

#[test]
fn word_counts() {
    let doc = Document::from_text("one  two\n three", "f".to_string());
    assert_eq!(doc.word_count(), 3);
    assert_eq!(doc.word_count_checked(), Some(3));
}

#[test]
fn file_names_and_markdown_paths() {
    let doc = Document::from_text("", "dir/sub/notes.md".to_string());
    assert_eq!(doc.file_name_or_default(), "notes.md");
    let doc = Document::new_empty(None);
    assert_eq!(doc.file_name_or_default(), "[No Name]");
    assert_eq!(doc.save(), "redit.md");
    assert!(is_markdown_path("dir/README.MD"));
    assert!(is_markdown_path("a.markdown"));
    assert!(!is_markdown_path("a.txt"));
    assert!(!is_markdown_path("md"));
}

#[test]
fn text_helpers() {
    assert_eq!(insert_str_at("héllo", 2, "XY"), "héXYllo");
    assert_eq!(insert_str_at("ab", 9, "c"), "abc");
    assert_eq!(drop_last_char("héé"), "hé");
    assert_eq!(drop_last_char(""), "");
    assert_eq!(trim_text("\u{2003} a b \n"), "a b");
}

#[test]
fn ctrl_keys_and_shift() {
    assert_eq!(ctrl_key_action('q', false), Some(MenuAction::Quit));
    assert_eq!(ctrl_key_action('S', true), Some(MenuAction::SaveAs));
    assert_eq!(ctrl_key_action('S', false), Some(MenuAction::Save));
    assert_eq!(ctrl_key_action('Q', false), None);
    assert_eq!(ctrl_key_action('p', false), Some(MenuAction::TogglePreview));
    let k = KeyInput { code: KeyCode::Left, ctrl: false, alt: false, shift: true };
    assert!(shift_only(k));
    assert!(!shift_only(KeyInput { ctrl: true, ..k }));
}

#[test]
fn deleting_a_selection_removes_exactly_the_selected_text() {
    let before = vec!["alpha".to_string(), "beta".to_string(), "gamma".to_string()];
    let selection = SelectionRange { start: Position { x: 2, y: 0 }, end: Position { x: 2, y: 2 } };
    let selected = selected_text_in_lines(&before, selection);
    let mut lines = before.clone();
    delete_selection_in_lines(&mut lines, selection);
    assert_eq!(lines, vec!["almma"]);
    let rebuilt = format!("{}{}{}", &lines[0][..2], selected, &lines[0][2..]);
    assert_eq!(rebuilt, before.join("\n"));
}

#[test]
fn markdown_extension_of_plain_names() {
    assert!(is_markdown_path("notes.Md"));
    assert!(is_markdown_path("notes.mkd"));
    assert!(is_markdown_path("x.mdown"));
    assert!(is_markdown_path("..md"));
    assert!(!is_markdown_path(".md"));
    assert!(!is_markdown_path("a.md.txt"));
    assert!(!is_markdown_path("md."));
    assert!(!is_markdown_path(".."));
    assert!(!is_markdown_path(""));
}

#[test]
fn file_names_and_markdown_paths_with_directories() {
    let name = |p: &str| Document::from_text("", p.to_string()).file_name_or_default();
    assert_eq!(name("/tmp/notes.md"), "notes.md");
    assert_eq!(name("docs/a/"), "a");
    assert_eq!(name("docs/a/."), "a");
    assert_eq!(name("docs/.."), "[No Name]");
    assert_eq!(name("/"), "[No Name]");
    assert_eq!(name("."), "[No Name]");
    assert_eq!(name("plain"), "plain");
    assert!(is_markdown_path("docs/notes.md"));
    assert!(is_markdown_path("/tmp/x/README.Markdown"));
    assert!(is_markdown_path("notes.md/"));
    assert!(!is_markdown_path("docs.md/notes"));
    assert!(!is_markdown_path("docs/.md"));
    assert!(!is_markdown_path("notes.md/.."));
}

#[test]
fn double_delimiters_change_only_plain_text() {
    let chars: Vec<char> = "**x**".chars().collect();
    let mut styles = vec![MdStyle::Normal; 5];
    apply_double_delimited_style(&chars, &mut styles, '*', MdStyle::Strong);
    assert_eq!(
        styles,
        vec![MdStyle::Marker, MdStyle::Marker, MdStyle::Strong, MdStyle::Marker, MdStyle::Marker]
    );
    let mut styles = vec![MdStyle::Normal, MdStyle::Normal, MdStyle::Code, MdStyle::Normal, MdStyle::Normal];
    apply_double_delimited_style(&chars, &mut styles, '*', MdStyle::Strong);
    assert_eq!(
        styles,
        vec![MdStyle::Normal, MdStyle::Normal, MdStyle::Code, MdStyle::Normal, MdStyle::Normal]
    );
}

#[test]
fn deleting_a_selection_cuts_its_span_out_of_the_joined_text() {
    let before = vec!["ab".to_string(), "cd".to_string(), "ef".to_string()];
    let text: Vec<char> = before.join("\n").chars().collect();
    let selection = SelectionRange { start: Position { x: 1, y: 0 }, end: Position { x: 1, y: 2 } };
    // Offsets: the lines above, each with its line break, and the column.
    let start = 1;
    let end = (2 + 1) + (2 + 1) + 1;
    let selected = selected_text_in_lines(&before, selection);
    assert_eq!(selected, text[start..end].iter().collect::<String>());
    let mut lines = before.clone();
    let cursor = delete_selection_in_lines(&mut lines, selection);
    assert_eq!(cursor, selection.start);
    let rest: String = text[..start].iter().chain(text[end..].iter()).collect();
    assert_eq!(lines.join("\n"), rest);
    assert_eq!(lines, vec!["af"]);
}
