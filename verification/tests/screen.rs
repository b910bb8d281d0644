use redit::ansi::{
    ansi_to_line_clipped, apply_sgr_sequence, base_sgr_style, parse_sgr_params, SgrStyle,
    TermColor, BOLD, DIM, ITALIC,
};
use redit::document::{Document, Position};
use redit::editor::Editor;
use redit::layout::{body_width, gutter_width, preview_layout, scroll_axis_exec};
use redit::menu::{dropdown_rect, MenuKind, MenuRect};
use redit::preview::{
    choose_preview, glow_args, glow_failure_detail, output_lines, preview_cache_is_current, preview_row,
};
use redit::code::{code_spans_for_window, plain_spans_for_window, CodeHighlighting, CodeToken};
use redit::rows::{markdown_spans_for_window, TextLook};
use redit::screen::{
    dropdown_lines, menu_bar, message_bar_text, panel_title, popup_rect_exec, separator_lines,
    status_bar_text, PopupLineKind, PreviewBackend,
};

fn editor_with(lines: &[&str]) -> Editor {
    Editor::new(Document::from_text(&lines.join("\n"), "dir/notes.md".to_string()))
}

#[test]
fn gutter_width_counts_digits_plus_one() {
    assert_eq!(gutter_width(0), 2);
    assert_eq!(gutter_width(1), 2);
    assert_eq!(gutter_width(9), 2);
    assert_eq!(gutter_width(10), 3);
    assert_eq!(gutter_width(12345), 6);
}

#[test]
fn preview_layout_splits_wide_bodies_only() {
    assert_eq!(preview_layout(true, 2, 78), Some((39, 40, 38)));
    assert_eq!(preview_layout(true, 2, 57), None);
    assert_eq!(preview_layout(true, 2, 58), Some((29, 30, 28)));
    assert_eq!(preview_layout(false, 2, 200), None);
    assert_eq!(body_width(true, 2, 78), 37);
    assert_eq!(body_width(false, 2, 78), 76);
    assert_eq!(body_width(false, 5, 3), 0);
}

#[test]
fn scroll_axis_moves_the_window_just_enough() {
    assert_eq!(scroll_axis_exec(5, 10, 4), 5);
    assert_eq!(scroll_axis_exec(20, 10, 4), 17);
    assert_eq!(scroll_axis_exec(12, 10, 4), 10);
    assert_eq!(scroll_axis_exec(20, 10, 0), 10);
}

#[test]
fn status_bar_puts_counts_left_and_position_right() {
    let bar = status_bar_text("a.md", 3, 5, true, "Preview:OFF", 2, 4, 64);
    assert_eq!(bar, " a.md | 3 lines | 5 words (modified) | Preview:OFF  Ln 2, Col 4 ");
    let clipped = status_bar_text("a.md", 3, 5, true, "Preview:OFF", 2, 4, 60);
    assert_eq!(clipped, " a.md | 3 lines | 5 words (modified) | Preview:OLn 2, Col 4 ");
    assert_eq!(status_bar_text("a.md", 3, 5, false, "Preview:OFF", 2, 4, 5), "Ln 2,");
    assert_eq!(status_bar_text("a.md", 3, 5, false, "Preview:Glow", 2, 4, 20), " a.md | Ln 2, Col 4 ");
}

#[test]
fn editor_status_bar_uses_file_name() {
    let ed = editor_with(&["one two", "three"]);
    let bar = ed.status_bar_line(70, PreviewBackend::Glow);
    assert!(bar.starts_with(" notes.md | 2 lines | 3 words | Preview:OFF"));
    assert!(bar.ends_with("Ln 1, Col 1 "));
    assert_eq!(bar.chars().count(), 70);
    assert_eq!(ed.panel_title(80), " notes.md ");
    let unnamed = Editor::new(Document::new_empty(None));
    assert_eq!(unnamed.panel_title(80), " [No Name] ");
}

#[test]
fn panel_title_marks_changes_and_split() {
    assert_eq!(panel_title("a", true, true), " a * | Split Preview ");
    assert_eq!(panel_title("a", false, false), " a ");
}

#[test]
fn message_bar_pads_or_blanks() {
    assert_eq!(message_bar_text("hi", false, 5), "hi   ");
    assert_eq!(message_bar_text("hello world", false, 5), "hello");
    assert_eq!(message_bar_text("hi", true, 4), "    ");
}

#[test]
fn menu_bar_lists_title_and_labels() {
    let spans = menu_bar(50, Some(MenuKind::Edit));
    let texts: Vec<(String, bool)> = spans.into_iter().map(|s| (s.text, s.highlighted)).collect();
    assert_eq!(
        texts,
        vec![
            (" redit v0.1 ".to_string(), false),
            (" ".to_string(), false),
            (" File ".to_string(), false),
            ("  ".to_string(), false),
            (" Edit ".to_string(), true),
            ("  ".to_string(), false),
            (" Search ".to_string(), false),
            ("  ".to_string(), false),
            (" Help ".to_string(), false),
            ("     ".to_string(), false),
        ]
    );
    let narrow: Vec<String> = menu_bar(16, None).into_iter().map(|s| s.text).collect();
    assert_eq!(narrow, vec![" redit v0.1 ".to_string(), " ".to_string(), " Fi".to_string()]);
}

#[test]
fn dropdown_rect_and_lines() {
    let rect = dropdown_rect(MenuKind::File, 80, 24).expect("the dropdown fits");
    assert_eq!(rect, MenuRect { x: 13, y: 1, width: 28, height: 5 });
    let lines = dropdown_lines(MenuKind::File, rect, 1);
    let texts: Vec<(String, bool)> = lines.into_iter().map(|s| (s.text, s.highlighted)).collect();
    assert_eq!(texts[0], (format!("{:<26}", " Save        Ctrl+S "), false));
    assert_eq!(texts[1], (" Save As...  Ctrl+Shift+S ".to_string(), true));
    assert_eq!(texts.len(), 3);
    assert_eq!(dropdown_rect(MenuKind::Help, 39, 24), None);
    assert_eq!(dropdown_rect(MenuKind::Edit, 80, 5), None);
}

#[test]
fn popup_rect_is_centred_and_bounded() {
    let r = popup_rect_exec(80, 24, 28, 72, 7).expect("fits");
    assert_eq!((r.x, r.y, r.width, r.height), (4, 8, 72, 7));
    let r = popup_rect_exec(30, 8, 28, 72, 7).expect("fits");
    assert_eq!((r.x, r.y, r.width, r.height), (1, 1, 28, 6));
    assert!(popup_rect_exec(27, 24, 28, 72, 7).is_none());
    assert!(popup_rect_exec(28, 24, 28, 72, 7).is_none());
    assert!(popup_rect_exec(80, 7, 28, 72, 7).is_none());
}

#[test]
fn save_as_popup_render_lines_and_cursor() {
    let mut ed = editor_with(&["a"]);
    ed.open_save_as_popup();
    let r = ed.build_save_as_popup_render(80, 24).expect("the popup is drawn");
    assert_eq!(r.title, " Save As ");
    assert_eq!(r.lines.len(), 5);
    assert_eq!(r.lines[0].text, format!("{:<70}", " Path:"));
    assert_eq!(r.lines[0].kind, PopupLineKind::Label);
    assert_eq!(r.lines[1].text, format!("{:<70}", "dir/notes.md"));
    assert_eq!(r.lines[1].kind, PopupLineKind::SelectedField);
    assert_eq!(r.lines[2].kind, PopupLineKind::Hint);
    assert_eq!(r.lines[3].kind, PopupLineKind::Blank);
    assert_eq!(r.cursor, (4 + 1 + 12, 10));
    assert_eq!(ed.screen_cursor(80, 24), Some((17, 10)));
    assert!(ed.build_save_as_popup_render(20, 24).is_none());
}

#[test]
fn search_popup_render_marks_the_active_field() {
    let mut ed = editor_with(&["a"]);
    ed.open_replace_popup();
    let r = ed.build_search_popup_render(80, 24).expect("the popup is drawn");
    assert_eq!(r.title, " Replace ");
    assert_eq!((r.rect.x, r.rect.y, r.rect.width, r.rect.height), (7, 7, 66, 9));
    let kinds: Vec<PopupLineKind> = r.lines.iter().map(|l| l.kind).collect();
    assert_eq!(
        kinds,
        vec![
            PopupLineKind::Label,
            PopupLineKind::Field,
            PopupLineKind::Label,
            PopupLineKind::InactiveField,
            PopupLineKind::Blank,
            PopupLineKind::Hint,
            PopupLineKind::Blank,
        ]
    );
    assert_eq!(r.cursor, (8, 9));
    ed.open_find_popup();
    let r = ed.build_search_popup_render(80, 24).expect("the popup is drawn");
    assert_eq!(r.title, " Find ");
    assert_eq!(r.lines.len(), 5);
}

#[test]
fn editor_cursor_cell_follows_gutter_and_scroll() {
    let mut ed = editor_with(&["hello"]);
    ed.cursor = Position { x: 3, y: 0 };
    assert_eq!(ed.editor_cursor_cell(80, 24), Some((6, 2)));
    assert_eq!(ed.screen_cursor(80, 24), Some((6, 2)));
    assert_eq!(ed.editor_cursor_cell(80, 5), None);
}

#[test]
fn separator_is_one_rule_per_row() {
    assert_eq!(separator_lines(3), vec!["│", "│", "│"]);
}

#[test]
fn window_spans_group_characters_by_look() {
    let (spans, rendered, next) = markdown_spans_for_window("# Title", 0, 20, false, false, None);
    let got: Vec<(String, TextLook)> = spans.into_iter().map(|s| (s.text, s.look)).collect();
    assert_eq!(got, vec![("# ".to_string(), TextLook::Marker), ("Title".to_string(), TextLook::Plain)]);
    assert_eq!(rendered, 7);
    assert!(!next);
    let (spans, rendered, _) = markdown_spans_for_window("abcdef", 1, 3, false, false, Some((2, 3)));
    let got: Vec<(String, TextLook)> = spans.into_iter().map(|s| (s.text, s.look)).collect();
    assert_eq!(
        got,
        vec![
            ("b".to_string(), TextLook::Plain),
            ("c".to_string(), TextLook::SelectedPlain),
            ("d".to_string(), TextLook::Plain),
        ]
    );
    assert_eq!(rendered, 3);
    let (_, _, next) = markdown_spans_for_window("```", 0, 10, false, false, None);
    assert!(next);
}

#[test]
fn editor_rows_number_lines_and_mark_the_end() {
    let ed = editor_with(&["```", "code", "```", "text"]);
    assert!(ed.code_block_state_before(2));
    assert!(!ed.code_block_state_before(3));
    let rows = ed.build_markdown_editor_lines(6, 2, 10);
    assert_eq!(rows.len(), 6);
    assert_eq!(rows[0].gutter, "1 ");
    assert!(rows[0].current);
    assert_eq!(rows[1].segments[0].look, TextLook::Dim);
    assert_eq!(rows[3].segments[0].text, "text");
    assert_eq!(rows[3].segments[0].look, TextLook::Plain);
    assert_eq!(rows[3].fill, 6);
    assert_eq!(rows[5].gutter, "6 ");
    assert_eq!(rows[5].segments[0].text, "~");
    assert_eq!(rows[5].segments[0].look, TextLook::Faint);
    assert_eq!(rows[5].fill, 9);
}

#[test]
fn sgr_sequences_set_attributes_and_colours() {
    let mut st = base_sgr_style();
    apply_sgr_sequence("1;31", &mut st);
    assert_eq!(st, SgrStyle { fg: TermColor::Indexed(1), bg: TermColor::Background, add: BOLD, sub: 0 });
    apply_sgr_sequence("22;3", &mut st);
    assert_eq!(st.add, ITALIC);
    assert_eq!(st.sub, BOLD | DIM);
    apply_sgr_sequence("38;5;300;48;2;1;2;3", &mut st);
    assert_eq!(st.fg, TermColor::Indexed(44));
    assert_eq!(st.bg, TermColor::Rgb(1, 2, 3));
    apply_sgr_sequence("94;101", &mut st);
    assert_eq!(st.fg, TermColor::Indexed(12));
    assert_eq!(st.bg, TermColor::Indexed(9));
    apply_sgr_sequence("39;49", &mut st);
    assert_eq!((st.fg, st.bg), (TermColor::Foreground, TermColor::Background));
    apply_sgr_sequence("", &mut st);
    assert_eq!(st, base_sgr_style());
    apply_sgr_sequence("4", &mut st);
    apply_sgr_sequence("0", &mut st);
    assert_eq!(st, base_sgr_style());
}

#[test]
fn sgr_parameters_follow_number_parsing() {
    assert_eq!(parse_sgr_params(""), vec![Some(0)]);
    assert_eq!(parse_sgr_params(";1"), vec![None, Some(1)]);
    assert_eq!(parse_sgr_params("+7;x;70000;007"), vec![Some(7), None, None, Some(7)]);
    assert_eq!(parse_sgr_params("+"), vec![None]);
}

#[test]
fn ansi_line_is_cut_into_styled_runs() {
    let runs = ansi_to_line_clipped("\u{1b}[1mab\u{1b}[0mcd\r\n", 3);
    let got: Vec<(String, SgrStyle)> = runs.into_iter().map(|r| (r.text, r.style)).collect();
    let bold = SgrStyle { add: BOLD, ..base_sgr_style() };
    assert_eq!(got, vec![("ab".to_string(), bold), ("c".to_string(), base_sgr_style())]);
    assert!(ansi_to_line_clipped("abc", 0).is_empty());
    let runs = ansi_to_line_clipped("x\u{1b}[2Ky", 10);
    let got: Vec<String> = runs.into_iter().map(|r| r.text).collect();
    assert_eq!(got, vec!["x".to_string(), "y".to_string()]);
}

#[test]
fn preview_rows_from_glow_and_fallback() {
    let out = vec!["\u{1b}[1mHi\u{1b}[0m".to_string()];
    let row = preview_row(&out, 0, 5, PreviewBackend::Glow);
    assert_eq!(row.runs.len(), 1);
    assert_eq!(row.runs[0].text, "Hi");
    assert_eq!(row.fill, 3);
    let row = preview_row(&out, 0, 5, PreviewBackend::Fallback);
    assert_eq!(row.runs[0].text, "Hi");
    assert_eq!(row.runs[0].style, base_sgr_style());
    assert_eq!(row.fill, 3);
    let row = preview_row(&out, 4, 5, PreviewBackend::Glow);
    assert_eq!(row.runs[0].text, "~");
    assert_eq!(row.fill, 4);
    let row = preview_row(&out, 4, 0, PreviewBackend::Glow);
    assert!(row.runs.is_empty());
}

#[test]
fn preview_source_rewrites_html_headings() {
    let ed = editor_with(&["<h1>Top</h1>", "<h2> Sub </h2>", "plain"]);
    assert_eq!(ed.preview_source_lines(), vec!["# Top", "**Sub**", "plain"]);
    assert_eq!(ed.preview_source_text(), "# Top\n**Sub**\nplain");
    assert_eq!(ed.render_fallback_preview(3), vec!["# T", "**S", "pla"]);
}

#[test]
fn preview_choice_and_messages() {
    let (lines, backend, err) = choose_preview(Some(Ok(vec!["g".to_string()])), vec!["f".to_string()]);
    assert_eq!((lines, backend, err), (vec!["g".to_string()], PreviewBackend::Glow, None));
    let (lines, backend, err) = choose_preview(Some(Err("boom".to_string())), vec!["f".to_string()]);
    assert_eq!(lines, vec!["f".to_string()]);
    assert_eq!(backend, PreviewBackend::Fallback);
    assert_eq!(err, Some("Glow preview unavailable: boom. Using fallback.".to_string()));
    let (_, _, err) = choose_preview(None, vec![]);
    assert_eq!(err, Some("Glow not found. Install glow to enable GitHub-style preview.".to_string()));
    assert_eq!(glow_failure_detail("  bad flag \n", "1"), "bad flag");
    assert_eq!(glow_failure_detail("   ", "exit status: 2"), "exit status exit status: 2");
}

#[test]
fn output_lines_match_str_lines() {
    assert_eq!(output_lines("a\r\nb\n"), vec!["a", "b"]);
    assert_eq!(output_lines("a\n\nb"), vec!["a", "", "b"]);
    assert_eq!(output_lines(""), Vec::<String>::new());
    assert_eq!(output_lines("\n"), vec![""]);
    assert_eq!(output_lines("a\r"), vec!["a\r"]);
    assert_eq!(output_lines("a\r\nb\r"), vec!["a", "b\r"]);
    assert_eq!(output_lines("a\r\n"), vec!["a"]);
}

#[test]
fn preview_error_is_reported_once() {
    let mut ed = editor_with(&["a"]);
    let kept = ed.report_preview_error(None, Some("e1".to_string()));
    assert_eq!(kept, Some("e1".to_string()));
    assert_eq!(ed.status, "e1");
    let serial = ed.status_serial;
    let kept = ed.report_preview_error(kept, Some("e1".to_string()));
    assert_eq!(ed.status_serial, serial);
    let kept = ed.report_preview_error(kept, None);
    assert_eq!(kept, None);
    assert_eq!(ed.status_serial, serial);
}

#[test]
fn glow_arguments_and_cache_freshness() {
    assert_eq!(glow_args(72), vec!["-s", "dark", "-w", "72", "-"]);
    assert_eq!(glow_args(0), vec!["-s", "dark", "-w", "0", "-"]);
    assert!(preview_cache_is_current(40, 7, 40, 7));
    assert!(!preview_cache_is_current(41, 7, 40, 7));
    assert!(!preview_cache_is_current(40, 8, 40, 7));
}

#[test]
fn windows_of_plain_and_highlighted_lines() {
    let (segs, shown) = plain_spans_for_window("abcdef", 1, 3, Some((2, 10)));
    let got: Vec<(String, TextLook)> = segs.into_iter().map(|s| (s.text, s.look)).collect();
    assert_eq!(got, vec![("b".to_string(), TextLook::Plain), ("cd".to_string(), TextLook::SelectedPlain)]);
    assert_eq!(shown, 3);
    let tok = |r: u8, text: &str| CodeToken { r, g: 0, b: 0, font: 0, text: text.to_string() };
    let tokens = vec![tok(1, "fn"), tok(2, " "), tok(3, "main")];
    let (segs, shown) = code_spans_for_window(&tokens, 1, 4, Some((3, 4)));
    let got: Vec<(String, TextLook)> = segs.into_iter().map(|s| (s.text, s.look)).collect();
    assert_eq!(
        got,
        vec![
            ("n".to_string(), TextLook::Code { r: 1, g: 0, b: 0, font: 0 }),
            (" ".to_string(), TextLook::Code { r: 2, g: 0, b: 0, font: 0 }),
            ("m".to_string(), TextLook::SelectedCode { font: 0 }),
            ("a".to_string(), TextLook::Code { r: 3, g: 0, b: 0, font: 0 }),
        ]
    );
    assert_eq!(shown, 4);
    let (segs, shown) = code_spans_for_window(&tokens, 9, 4, None);
    assert!(segs.is_empty());
    assert_eq!(shown, 0);
}

#[test]
fn code_files_are_highlighted_and_markdown_files_are_not() {
    let code = CodeHighlighting::load();
    let ed = Editor::new(Document::from_text("fn main() {}\nlet x = 1;", "src/main.rs".to_string()));
    assert!(!ed.uses_markdown_highlighting());
    assert!(ed.code_syntax(&code).is_some());
    let rows = ed.build_editor_lines(&code, 3, 2, 40);
    assert_eq!(rows.len(), 3);
    let text: String = rows[0].segments.iter().map(|s| s.text.as_str()).collect();
    assert_eq!(text, "fn main() {}");
    assert!(rows[0].segments.iter().any(|s| matches!(s.look, TextLook::Code { .. })));
    assert_eq!(rows[0].fill, 40 - 12);
    assert_eq!(rows[2].gutter, "3 ");
    assert!(rows[2].segments.is_empty());
    assert_eq!(rows[2].fill, 40);
    let md = Editor::new(Document::from_text("# Title", "notes.md".to_string()));
    assert!(md.uses_markdown_highlighting());
    let rows = md.build_editor_lines(&code, 1, 2, 10);
    assert_eq!(rows[0].segments[0].look, TextLook::Marker);
    let unnamed = Editor::new(Document::new_empty(None));
    assert!(unnamed.uses_markdown_highlighting());
    assert!(unnamed.code_syntax(&code).is_none());
    let plain = Editor::new(Document::from_text("hello", "notes.unknownext".to_string()));
    assert!(!plain.uses_markdown_highlighting());
    let rows = plain.build_plain_editor_lines(1, 2, 10);
    assert_eq!(rows[0].segments[0].text, "hello");
    assert_eq!(rows[0].segments[0].look, TextLook::Plain);
}

#[test]
fn code_rows_use_the_given_pieces_or_draw_plain() {
    let ed = Editor::new(Document::from_text("let x", "a.rs".to_string()));
    let tokens = vec![
        CodeToken { r: 9, g: 8, b: 7, font: 1, text: "let".to_string() },
        CodeToken { r: 1, g: 2, b: 3, font: 0, text: " x".to_string() },
    ];
    let row = ed.code_row(0, "let x", Some(tokens), 2, 10);
    let got: Vec<(String, TextLook)> = row.segments.into_iter().map(|s| (s.text, s.look)).collect();
    assert_eq!(
        got,
        vec![
            ("let".to_string(), TextLook::Code { r: 9, g: 8, b: 7, font: 1 }),
            (" x".to_string(), TextLook::Code { r: 1, g: 2, b: 3, font: 0 }),
        ]
    );
    assert_eq!(row.gutter, "1 ");
    assert_eq!(row.fill, 5);
    let row = ed.code_row(0, "let x", None, 2, 10);
    let got: Vec<(String, TextLook)> = row.segments.into_iter().map(|s| (s.text, s.look)).collect();
    assert_eq!(got, vec![("let x".to_string(), TextLook::Plain)]);
    let code = CodeHighlighting::load();
    assert_eq!(ed.code_syntax(&code), Some("Rust".to_string()));
    let rows = ed.build_plain_editor_lines(2, 2, 10);
    assert_eq!(rows[0].segments[0].text, "let x");
    assert!(rows[1].segments.is_empty());
    assert_eq!(rows[1].fill, 10);
}
