//! The editor's commands: the menus, the actions of their entries, the
//! "Save As" and search popups, find and replace, and the handling of a key
//! or a mouse event. Saving is left to the caller: a command that saves
//! returns the path to write, and the caller reports back how it went.
use vstd::prelude::*;

use crate::document::{lines_view, min_int, remove_at, remove_char_at, Position};
use crate::editor::{
    at, backspace_op, before_cursor, begin_edit_op, clamp_cursor, copy_op, cut_op,
    delete_forward_op, delete_selection_op, enter_overflows, insert_char_op, insert_chars_op,
    insert_newline_op, line_len, move_down_op, move_left_op, move_right_op, move_up_op,
    normalize_anchor, page_down_op, page_up_op, paste_op, quit_op, redo_op, selection_after_move,
    undo_op, wf, with_status, Editor, EditorView, SaveAsPopupState, SaveAsView, SearchPopupField,
    SearchPopupMode, SearchPopupState, SearchView,
};
use crate::layout::{scroll_op, spec_gutter_width, spec_preview_layout, mouse_position};
use crate::markdown::{decimal, decimal_string, list_number_is_max};
use crate::menu::{
    menu_entries, menu_entry_count, menu_from_mnemonic, menu_item_index_by_mnemonic, next_menu,
    prev_menu, spec_menu_by_index, spec_menu_entries, spec_menu_from_mnemonic, spec_menu_index,
    first_mnemonic_from, MenuAction, MenuKind,
};
use crate::search::{
    count_in_all_lines, count_in_lines, find_in_lines, find_in_lines_from, replace_at, replace_in_lines,
    replace_span,
};
use crate::text::{chars_of, push_char, push_chars, push_str, string_from_chars};
use crate::textfmt::{ascii_lower, to_ascii_lowercase, trim, trim_text};

verus! {

/// What the caller has to do after a command.
pub enum EditorRequest {
    /// Nothing.
    Nothing,
    /// Write the buffer (`Document::text_for_save`) to the path, then call
    /// `Editor::finish_save`.
    Save(String),
    /// Write the buffer to the path typed in the "Save As" popup, then call
    /// `Editor::finish_save_as`.
    SaveAs(String),
    /// Enter continued an ordered list item numbered `usize::MAX`, whose
    /// successor does not fit in a `usize`: the program cannot go on.
    ListNumberOverflow,
}

/// A request as plain values.
pub enum RequestView {
    Nothing,
    Save(Seq<char>),
    SaveAs(Seq<char>),
    ListNumberOverflow,
}

impl View for EditorRequest {
    type V = RequestView;

    open spec fn view(&self) -> RequestView {
        match self {
            EditorRequest::Nothing => RequestView::Nothing,
            EditorRequest::Save(p) => RequestView::Save(p@),
            EditorRequest::SaveAs(p) => RequestView::SaveAs(p@),
            EditorRequest::ListNumberOverflow => RequestView::ListNumberOverflow,
        }
    }
}

/// The message shown when `menu` opens.
pub open spec fn menu_opened_msg(menu: MenuKind) -> Seq<char> {
    match menu {
        MenuKind::File => "File menu opened"@,
        MenuKind::Edit => "Edit menu opened"@,
        MenuKind::Search => "Search menu opened"@,
        MenuKind::Help => "Help menu opened"@,
    }
}

/// The message of the Keybindings entry.
pub open spec fn keybindings_msg() -> Seq<char> {
    "Shortcuts: Ctrl-S save, Ctrl-Shift-S save as, Ctrl-Q quit, Ctrl-P preview."@
}

/// The message of the About entry.
pub open spec fn about_msg() -> Seq<char> {
    "redit v0.1: terminal markup editor prototype in Rust."@
}

/// `v` with no menu open.
pub open spec fn close_menu(v: EditorView) -> EditorView {
    EditorView { active_menu: None, active_menu_index: 0, ..v }
}

/// `v` with `menu` open on its first entry.
pub open spec fn open_menu_op(v: EditorView, menu: MenuKind) -> EditorView {
    with_status(
        EditorView { active_menu: Some(menu), active_menu_index: 0, ..v },
        menu_opened_msg(menu),
    )
}

/// Alt with `c`: opens the menu whose mnemonic is `c` (in either case).
pub open spec fn alt_menu_op(v: EditorView, c: char) -> EditorView {
    match spec_menu_from_mnemonic(ascii_lower(c)) {
        Some(menu) => open_menu_op(v, menu),
        None => v,
    }
}

/// The entry above the selected one, the last for the first.
pub open spec fn select_prev_item_op(v: EditorView, menu: MenuKind) -> EditorView {
    let n = spec_menu_entries(menu).len();
    EditorView {
        active_menu_index: (if v.active_menu_index == 0 {
            n - 1
        } else {
            v.active_menu_index - 1
        }) as usize,
        ..v
    }
}

/// The entry below the selected one, the first for the last.
pub open spec fn select_next_item_op(v: EditorView, menu: MenuKind) -> EditorView {
    let n = spec_menu_entries(menu).len();
    EditorView { active_menu_index: ((v.active_menu_index + 1) % (n as int)) as usize, ..v }
}

/// The path a plain save writes to.
pub open spec fn save_path_of(v: EditorView) -> Seq<char> {
    match v.file_path {
        Some(p) => p,
        None => "redit.md"@,
    }
}

/// Opens the "Save As" popup on the current path, all of it selected.
pub open spec fn open_save_as_op(v: EditorView) -> EditorView {
    EditorView {
        save_as: Some(
            SaveAsView {
                path: save_path_of(v),
                cursor: save_path_of(v).len() as usize,
                select_all: true,
            },
        ),
        search: None,
        active_menu: None,
        active_menu_index: 0,
        ..v
    }
}

/// Opens the search popup in `mode`, holding the last query.
pub open spec fn open_search_op(v: EditorView, mode: SearchPopupMode) -> EditorView {
    EditorView {
        search: Some(
            SearchView {
                mode,
                find: v.last_search_query,
                replace: Seq::empty(),
                active_field: SearchPopupField::Find,
            },
        ),
        save_as: None,
        active_menu: None,
        active_menu_index: 0,
        ..v
    }
}

/// Turns the preview on or off; a screen `cols` columns wide decides which
/// message says it is on.
pub open spec fn toggle_preview_op(v: EditorView, cols: u16, rows: u16) -> EditorView {
    let on = !v.preview_mode;
    let v1 = EditorView { preview_mode: on, ..v };
    let inner = if cols >= 2 {
        cols - 2
    } else {
        0
    };
    let msg = if !on {
        "Preview hidden."@
    } else if spec_preview_layout(true, spec_gutter_width(v.lines.len() as int), inner) is Some {
        "Preview enabled (Ctrl-P to hide)."@
    } else {
        "Preview enabled. Widen terminal to show split preview."@
    };
    scroll_op(with_status(v1, msg), cols, rows)
}

/// What the entry `action` does, and what the caller has to do after it.
#[verifier::opaque]
pub open spec fn menu_action_op(v: EditorView, action: MenuAction, cols: u16, rows: u16) -> (
    EditorView,
    RequestView,
) {
    match action {
        MenuAction::Save => (v, RequestView::Save(save_path_of(v))),
        MenuAction::SaveAs => (open_save_as_op(v), RequestView::Nothing),
        MenuAction::Quit => (quit_op(v), RequestView::Nothing),
        MenuAction::Undo => (undo_op(v), RequestView::Nothing),
        MenuAction::Redo => (redo_op(v), RequestView::Nothing),
        MenuAction::Cut => (cut_op(v), RequestView::Nothing),
        MenuAction::Copy => (copy_op(v), RequestView::Nothing),
        MenuAction::Paste => (paste_op(v), RequestView::Nothing),
        MenuAction::Find => (open_search_op(v, SearchPopupMode::Find), RequestView::Nothing),
        MenuAction::Replace => (open_search_op(v, SearchPopupMode::Replace), RequestView::Nothing),
        MenuAction::TogglePreview => (toggle_preview_op(v, cols, rows), RequestView::Nothing),
        MenuAction::Keybindings => (with_status(v, keybindings_msg()), RequestView::Nothing),
        MenuAction::About => (with_status(v, about_msg()), RequestView::Nothing),
    }
}

/// Runs the selected entry of `menu` (the last one when the index is past
/// the end).
#[verifier::opaque]
pub open spec fn activate_op(v: EditorView, menu: MenuKind, cols: u16, rows: u16) -> (
    EditorView,
    RequestView,
) {
    let n = spec_menu_entries(menu).len() as int;
    let idx = min_int(v.active_menu_index as int, n - 1);
    menu_action_op(
        EditorView { active_menu_index: idx as usize, ..v },
        spec_menu_entries(menu)[idx].1,
        cols,
        rows,
    )
}

/// Records a successful save to `path`.
pub open spec fn saved_op(v: EditorView, path: Seq<char>) -> EditorView {
    with_status(
        EditorView {
            file_path: Some(path),
            modified: false,
            quit_warning_countdown: 1,
            ..v
        },
        "Saved "@ + path,
    )
}

impl Editor {
    /// Opens `menu` on its first entry.
    pub fn open_menu(&mut self, menu: MenuKind)
        ensures
            final(self)@ == open_menu_op(old(self)@, menu),
    {
        self.active_menu = Some(menu);
        self.active_menu_index = 0;
        let msg = match menu {
            MenuKind::File => "File menu opened",
            MenuKind::Edit => "Edit menu opened",
            MenuKind::Search => "Search menu opened",
            MenuKind::Help => "Help menu opened",
        };
        self.set_status(msg.to_owned());
    }

    /// Alt with `c`: opens the menu whose mnemonic is `c`.
    pub fn handle_alt_menu(&mut self, c: char)
        ensures
            final(self)@ == alt_menu_op(old(self)@, c),
    {
        match menu_from_mnemonic(to_ascii_lowercase(c)) {
            Some(menu) => self.open_menu(menu),
            None => {},
        }
    }

    /// Selects the entry above, the last for the first.
    pub fn select_prev_menu_item(&mut self, menu: MenuKind)
        requires
            old(self)@.active_menu_index < 8,
        ensures
            final(self)@ == select_prev_item_op(old(self)@, menu),
    {
        let len = menu_entry_count(menu);
        if len == 0 {
            return ;
        }
        self.active_menu_index = if self.active_menu_index == 0 {
            len - 1
        } else {
            self.active_menu_index - 1
        };
        assert(final(self)@ =~= select_prev_item_op(old(self)@, menu));
    }

    /// Selects the entry below, the first for the last.
    pub fn select_next_menu_item(&mut self, menu: MenuKind)
        requires
            old(self)@.active_menu_index < 8,
        ensures
            final(self)@ == select_next_item_op(old(self)@, menu),
    {
        let len = menu_entry_count(menu);
        if len == 0 {
            return ;
        }
        self.active_menu_index = (self.active_menu_index + 1) % len;
        assert(final(self)@ =~= select_next_item_op(old(self)@, menu));
    }

    /// Opens the "Save As" popup on the current path, all of it selected.
    pub fn open_save_as_popup(&mut self)
        ensures
            final(self)@ == open_save_as_op(old(self)@),
    {
        let default_path = self.doc.save();
        let cursor = chars_of(default_path.as_str()).len();
        self.save_as_popup = Some(
            SaveAsPopupState { path_input: default_path, cursor, select_all: true },
        );
        self.search_popup = None;
        self.active_menu = None;
        self.active_menu_index = 0;
        assert(final(self)@ =~= open_save_as_op(old(self)@));
    }

    /// Opens the find popup on the last query.
    pub fn open_find_popup(&mut self)
        ensures
            final(self)@ == open_search_op(old(self)@, SearchPopupMode::Find),
    {
        self.search_popup = Some(SearchPopupState::find(self.last_search_query.as_str()));
        self.save_as_popup = None;
        self.active_menu = None;
        self.active_menu_index = 0;
        assert(final(self)@ =~= open_search_op(old(self)@, SearchPopupMode::Find));
    }

    /// Opens the replace popup on the last query.
    pub fn open_replace_popup(&mut self)
        ensures
            final(self)@ == open_search_op(old(self)@, SearchPopupMode::Replace),
    {
        self.search_popup = Some(SearchPopupState::replace(self.last_search_query.as_str()));
        self.save_as_popup = None;
        self.active_menu = None;
        self.active_menu_index = 0;
        assert(final(self)@ =~= open_search_op(old(self)@, SearchPopupMode::Replace));
    }

    /// Turns the preview on or off, for a `cols` by `rows` screen.
    pub fn toggle_preview(&mut self, cols: u16, rows: u16)
        ensures
            final(self)@ == toggle_preview_op(old(self)@, cols, rows),
    {
        self.preview_mode = !self.preview_mode;
        if self.preview_mode {
            let inner = (cols as usize).saturating_sub(2);
            if self.preview_layout(inner).is_some() {
                self.set_status("Preview enabled (Ctrl-P to hide).".to_owned());
            } else {
                self.set_status(
                    "Preview enabled. Widen terminal to show split preview.".to_owned(),
                );
            }
        } else {
            self.set_status("Preview hidden.".to_owned());
        }
        self.scroll(cols, rows);
    }

    /// Runs the entry `action`; says what the caller has to do after it.
    pub fn invoke_menu_action(&mut self, action: MenuAction, cols: u16, rows: u16) -> (res:
        EditorRequest)
        requires
            wf(old(self)@),
        ensures
            (final(self)@, res@) == menu_action_op(old(self)@, action, cols, rows),
            wf(final(self)@),
    {
        reveal(menu_action_op);
        match action {
            MenuAction::Save => {
                return EditorRequest::Save(self.doc.save());
            },
            MenuAction::SaveAs => self.open_save_as_popup(),
            MenuAction::Quit => self.quit(),
            MenuAction::Undo => self.undo(),
            MenuAction::Redo => self.redo(),
            MenuAction::Cut => self.cut_current_line(),
            MenuAction::Copy => self.copy_current_line(),
            MenuAction::Paste => self.paste_clipboard(),
            MenuAction::Find => self.open_find_popup(),
            MenuAction::Replace => self.open_replace_popup(),
            MenuAction::TogglePreview => self.toggle_preview(cols, rows),
            MenuAction::Keybindings => {
                self.set_status(
                    "Shortcuts: Ctrl-S save, Ctrl-Shift-S save as, Ctrl-Q quit, Ctrl-P preview.".to_owned(),
                );
            },
            MenuAction::About => {
                self.set_status(
                    "redit v0.1: terminal markup editor prototype in Rust.".to_owned(),
                );
            },
        }
        EditorRequest::Nothing
    }

    /// Runs the selected entry of `menu`.
    pub fn activate_selected_menu_item(&mut self, menu: MenuKind, cols: u16, rows: u16) -> (res:
        EditorRequest)
        requires
            wf(old(self)@),
        ensures
            (final(self)@, res@) == activate_op(old(self)@, menu, cols, rows),
            wf(final(self)@),
    {
        reveal(activate_op);
        let entries = menu_entries(menu);
        let n = entries.len();
        let idx = if self.active_menu_index < n - 1 {
            self.active_menu_index
        } else {
            n - 1
        };
        self.active_menu_index = idx;
        assert((entries@[idx as int].mnemonic, entries@[idx as int].action) == spec_menu_entries(
            menu,
        )[idx as int]);
        self.invoke_menu_action(entries[idx].action, cols, rows)
    }

    /// Records the outcome of writing the buffer to `path` for a plain
    /// save: on success the buffer takes the path and is no longer
    /// modified; on failure the error `err` is shown.
    pub fn finish_save(&mut self, path: String, outcome: Result<(), String>)
        ensures
            match outcome {
                Ok(()) => final(self)@ == saved_op(old(self)@, path@),
                Err(e) => final(self)@ == with_status(old(self)@, "Save failed: "@ + e@),
            },
    {
        match outcome {
            Ok(()) => {
                let mut msg = "Saved ".to_owned();
                push_str(&mut msg, path.as_str());
                self.doc.mark_saved(path);
                self.quit_warning_countdown = 1;
                self.set_status(msg);
            },
            Err(e) => {
                let mut msg = "Save failed: ".to_owned();
                push_str(&mut msg, e.as_str());
                self.set_status(msg);
            },
        }
    }

    /// Records the outcome of writing the buffer to `path` from the
    /// "Save As" popup: on success the popup closes as well.
    pub fn finish_save_as(&mut self, path: String, outcome: Result<(), String>)
        ensures
            match outcome {
                Ok(()) => final(self)@ == (EditorView { save_as: None, ..saved_op(old(self)@, path@) }),
                Err(e) => final(self)@ == with_status(old(self)@, "Save As failed: "@ + e@),
            },
    {
        match outcome {
            Ok(()) => {
                let mut msg = "Saved ".to_owned();
                push_str(&mut msg, path.as_str());
                self.doc.mark_saved(path);
                self.quit_warning_countdown = 1;
                self.set_status(msg);
                self.save_as_popup = None;
            },
            Err(e) => {
                let mut msg = "Save As failed: ".to_owned();
                push_str(&mut msg, e.as_str());
                self.set_status(msg);
            },
        }
    }
}

/// A key, as the editor reads it.
#[derive(Clone, Copy, PartialEq, Eq, Debug, Structural)]
pub enum KeyCode {
    Char(char),
    F(u8),
    Esc,
    Enter,
    Tab,
    Backspace,
    Delete,
    Left,
    Right,
    Up,
    Down,
    Home,
    End,
    PageUp,
    PageDown,
    /// Any other key.
    Other,
}

/// A key press with the modifiers held down.
#[derive(Clone, Copy, PartialEq, Eq, Debug, Structural)]
pub struct KeyInput {
    pub code: KeyCode,
    pub ctrl: bool,
    pub alt: bool,
    pub shift: bool,
}

/// Whether Shift is the only modifier held down (which extends the
/// selection).
pub open spec fn spec_shift_only(key: KeyInput) -> bool {
    key.shift && !key.ctrl && !key.alt
}

/// Whether Shift is the only modifier held down.
pub fn shift_only(key: KeyInput) -> (res: bool)
    ensures
        res == spec_shift_only(key),
{
    key.shift && !key.ctrl && !key.alt
}

/// `v` with the "Save As" popup `p`.
pub open spec fn set_save_as(v: EditorView, p: SaveAsView) -> EditorView {
    EditorView { save_as: Some(p), ..v }
}

/// An empty path, nothing selected.
pub open spec fn save_as_cleared() -> SaveAsView {
    SaveAsView { path: Seq::empty(), cursor: 0, select_all: false }
}

/// Types `t` into the path at its cursor, in place of the whole path when
/// it is selected.
pub open spec fn save_as_insert(p: SaveAsView, t: Seq<char>) -> SaveAsView {
    let q = if p.select_all {
        save_as_cleared()
    } else {
        p
    };
    let k = min_int(q.cursor as int, q.path.len() as int);
    SaveAsView {
        path: q.path.take(k) + t + q.path.skip(k),
        cursor: (q.cursor + t.len()) as usize,
        select_all: false,
    }
}

/// Backspace in the path: clears a selected path, or else deletes the
/// character before the cursor.
pub open spec fn save_as_backspace_view(p: SaveAsView) -> SaveAsView {
    if p.select_all {
        save_as_cleared()
    } else if p.cursor > 0 {
        SaveAsView { path: remove_at(p.path, p.cursor - 1), cursor: (p.cursor - 1) as usize, ..p }
    } else {
        p
    }
}

/// Delete in the path: clears a selected path, or else deletes the
/// character under the cursor.
pub open spec fn save_as_delete_view(p: SaveAsView) -> SaveAsView {
    if p.select_all {
        save_as_cleared()
    } else {
        SaveAsView { path: remove_at(p.path, p.cursor as int), ..p }
    }
}

/// Enter in the "Save As" popup: asks to save to the trimmed path, unless
/// it is empty.
pub open spec fn submit_save_as_op(v: EditorView, p: SaveAsView) -> (EditorView, RequestView) {
    let path = trim(p.path);
    if path.len() == 0 {
        (with_status(v, "Save As path cannot be empty."@), RequestView::Nothing)
    } else {
        (v, RequestView::SaveAs(path))
    }
}

/// A key in the "Save As" popup `p`.
pub open spec fn save_as_key_op(v: EditorView, p: SaveAsView, key: KeyInput) -> (
    EditorView,
    RequestView,
) {
    let len = p.path.len() as int;
    match key.code {
        KeyCode::Esc => (
            with_status(EditorView { save_as: None, ..v }, "Save As cancelled."@),
            RequestView::Nothing,
        ),
        KeyCode::Backspace => (set_save_as(v, save_as_backspace_view(p)), RequestView::Nothing),
        KeyCode::Delete => (set_save_as(v, save_as_delete_view(p)), RequestView::Nothing),
        KeyCode::Left => (
            set_save_as(
                v,
                SaveAsView {
                    select_all: false,
                    cursor: (if p.cursor > 0 {
                        p.cursor - 1
                    } else {
                        0
                    }) as usize,
                    ..p
                },
            ),
            RequestView::Nothing,
        ),
        KeyCode::Right => (
            set_save_as(
                v,
                SaveAsView {
                    select_all: false,
                    cursor: min_int(p.cursor + 1, len) as usize,
                    ..p
                },
            ),
            RequestView::Nothing,
        ),
        KeyCode::Home => (
            set_save_as(v, SaveAsView { select_all: false, cursor: 0, ..p }),
            RequestView::Nothing,
        ),
        KeyCode::End => (
            set_save_as(v, SaveAsView { select_all: false, cursor: len as usize, ..p }),
            RequestView::Nothing,
        ),
        KeyCode::Enter => submit_save_as_op(v, p),
        KeyCode::Char(c) => if key.ctrl && c == 'v' {
            if v.clipboard.len() > 0 {
                (set_save_as(v, save_as_insert(p, v.clipboard)), RequestView::Nothing)
            } else {
                (v, RequestView::Nothing)
            }
        } else if key.ctrl && c == 'a' {
            (
                set_save_as(v, SaveAsView { select_all: true, cursor: len as usize, ..p }),
                RequestView::Nothing,
            )
        } else if !key.ctrl && !key.alt {
            (set_save_as(v, save_as_insert(p, seq![c])), RequestView::Nothing)
        } else {
            (v, RequestView::Nothing)
        },
        _ => (v, RequestView::Nothing),
    }
}

/// The text of the input box of `p` that takes typing.
pub open spec fn active_text(p: SearchView) -> Seq<char> {
    match p.active_field {
        SearchPopupField::Find => p.find,
        SearchPopupField::Replace => p.replace,
    }
}

/// `p` with `s` in the input box that takes typing.
pub open spec fn with_active_text(p: SearchView, s: Seq<char>) -> SearchView {
    match p.active_field {
        SearchPopupField::Find => SearchView { find: s, ..p },
        SearchPopupField::Replace => SearchView { replace: s, ..p },
    }
}

/// `v` with the search popup `p`.
pub open spec fn set_search(v: EditorView, p: SearchView) -> EditorView {
    EditorView { search: Some(p), ..v }
}

/// The message for a query that does not occur.
pub open spec fn no_match_msg(q: Seq<char>) -> Seq<char> {
    "No matches for \""@ + q + "\"."@
}

/// The message for a query found at `pos` (counted from 1).
pub open spec fn found_msg(q: Seq<char>, pos: Position) -> Seq<char> {
    "Found \""@ + q + "\" at Ln "@ + decimal((pos.y + 1) as nat) + ", Col "@ + decimal(
        (pos.x + 1) as nat,
    ) + "."@
}

/// The message for `n` occurrences of `q` replaced.
pub open spec fn replaced_msg(n: nat, q: Seq<char>) -> Seq<char> {
    "Replaced "@ + decimal(n) + " occurrence(s) of \""@ + q + "\"."@
}

/// Finds `q` after the cursor (or else from the start of the buffer) and
/// moves the cursor there, dropping the selection.
pub open spec fn find_next_op(v: EditorView, q: Seq<char>, cols: u16, rows: u16) -> EditorView {
    if q.len() == 0 {
        with_status(v, "Find text cannot be empty."@)
    } else {
        let start_col = if v.cursor.x == usize::MAX {
            usize::MAX as int
        } else {
            v.cursor.x + 1
        };
        let found = match find_in_lines(v.lines, q, v.cursor.y as int, start_col) {
            Some(p) => Some(p),
            None => find_in_lines(v.lines, q, 0, 0),
        };
        match found {
            Some(pos) => with_status(
                scroll_op(EditorView { selection_anchor: None, cursor: pos, ..v }, cols, rows),
                found_msg(q, pos),
            ),
            None => with_status(v, no_match_msg(q)),
        }
    }
}

/// Replaces every occurrence of `q` by `r` in every line, as one edit, and
/// says how many were replaced (saturating at `usize::MAX`).
pub open spec fn replace_all_op(v: EditorView, q: Seq<char>, r: Seq<char>) -> EditorView {
    let total = count_in_lines(v.lines, q);
    if q.len() == 0 {
        with_status(v, "Find text cannot be empty."@)
    } else if total == 0 {
        with_status(v, no_match_msg(q))
    } else {
        let v1 = begin_edit_op(v);
        with_status(
            clamp_cursor(EditorView { lines: replace_in_lines(v.lines, q, r), modified: true, ..v1 }),
            replaced_msg(min_int(total as int, usize::MAX as int) as nat, q),
        )
    }
}

/// The message for an occurrence of `q` replaced, `n` of them left.
pub open spec fn replaced_next_msg(q: Seq<char>, n: nat) -> Seq<char> {
    "Replaced \""@ + q + "\"; "@ + decimal(n) + " remaining."@
}

/// Replaces the first occurrence of `q` at or after the cursor (or else the
/// first in the buffer) by `r`, as one edit: the cursor goes to the end of
/// the inserted text, the selection is dropped, and the message says how
/// many occurrences are left in the buffer (saturating at `usize::MAX`).
pub open spec fn replace_next_op(v: EditorView, q: Seq<char>, r: Seq<char>, cols: u16, rows: u16) -> EditorView {
    if q.len() == 0 {
        with_status(v, "Find text cannot be empty."@)
    } else {
        let found = match find_in_lines(v.lines, q, v.cursor.y as int, v.cursor.x as int) {
            Some(p) => Some(p),
            None => find_in_lines(v.lines, q, 0, 0),
        };
        match found {
            Some(pos) => {
                let lines = v.lines.update(
                    pos.y as int,
                    replace_at(v.lines[pos.y as int], pos.x as int, q.len() as int, r),
                );
                let moved = EditorView {
                    lines,
                    modified: true,
                    selection_anchor: None,
                    cursor: Position { x: (pos.x + r.len()) as usize, y: pos.y },
                    ..begin_edit_op(v)
                };
                with_status(
                    scroll_op(moved, cols, rows),
                    replaced_next_msg(q, min_int(count_in_lines(lines, q) as int, usize::MAX as int) as nat),
                )
            },
            None => with_status(v, no_match_msg(q)),
        }
    }
}

/// Enter in the search popup `p`.
pub open spec fn submit_search_op(v: EditorView, p: SearchView, cols: u16, rows: u16) -> EditorView {
    if trim(p.find).len() == 0 {
        with_status(v, "Find text cannot be empty."@)
    } else if p.mode == SearchPopupMode::Find {
        EditorView {
            search: None,
            ..find_next_op(EditorView { last_search_query: p.find, ..v }, p.find, cols, rows)
        }
    } else if p.active_field == SearchPopupField::Find {
        set_search(v, SearchView { active_field: SearchPopupField::Replace, ..p })
    } else {
        replace_next_op(EditorView { last_search_query: p.find, ..v }, p.find, p.replace, cols, rows)
    }
}

/// A key in the search popup `p`.
pub open spec fn search_key_op(v: EditorView, p: SearchView, key: KeyInput, cols: u16, rows: u16) -> EditorView {
    match key.code {
        KeyCode::Esc => with_status(EditorView { search: None, ..v }, "Search cancelled."@),
        KeyCode::Tab | KeyCode::Up | KeyCode::Down => if p.mode == SearchPopupMode::Replace {
            set_search(
                v,
                SearchView {
                    active_field: match p.active_field {
                        SearchPopupField::Find => SearchPopupField::Replace,
                        SearchPopupField::Replace => SearchPopupField::Find,
                    },
                    ..p
                },
            )
        } else {
            v
        },
        KeyCode::Backspace => {
            let t = active_text(p);
            set_search(
                v,
                with_active_text(
                    p,
                    if t.len() > 0 {
                        t.drop_last()
                    } else {
                        t
                    },
                ),
            )
        },
        KeyCode::Enter => submit_search_op(v, p, cols, rows),
        KeyCode::Char(c) => if key.ctrl && c == 'v' {
            set_search(v, with_active_text(p, active_text(p) + v.clipboard))
        } else if !key.ctrl && !key.alt {
            set_search(v, with_active_text(p, active_text(p).push(c)))
        } else {
            v
        },
        _ => v,
    }
}

/// `s` with `t` inserted before character `k` (appended when `k` is past
/// the end).
pub fn insert_str_at(s: &str, k: usize, t: &str) -> (res: String)
    ensures
        res@ == s@.take(min_int(k as int, s@.len() as int)) + t@ + s@.skip(
            min_int(k as int, s@.len() as int),
        ),
{
    let cs = chars_of(s);
    let k = if k < cs.len() {
        k
    } else {
        cs.len()
    };
    let mut out = string_from_chars(&cs, 0, k);
    push_str(&mut out, t);
    push_chars(&mut out, cs.as_slice(), k, cs.len());
    assert(cs@.subrange(k as int, cs@.len() as int) =~= s@.skip(k as int));
    out
}

/// `s` without its last character (`s` itself when empty).
pub fn drop_last_char(s: &str) -> (res: String)
    ensures
        res@ == if s@.len() > 0 {
            s@.drop_last()
        } else {
            s@
        },
{
    let cs = chars_of(s);
    if cs.len() == 0 {
        assert(cs@.subrange(0, 0) =~= s@);
        return string_from_chars(&cs, 0, 0);
    }
    let r = string_from_chars(&cs, 0, cs.len() - 1);
    assert(r@ =~= s@.drop_last());
    r
}

impl Editor {
    /// Types `text` into the "Save As" path at its cursor.
    pub fn save_as_insert_text(&mut self, text: &str)
        requires
            wf(old(self)@),
        ensures
            match old(self)@.save_as {
                None => final(self)@ == old(self)@,
                Some(p) => final(self)@ == set_save_as(old(self)@, save_as_insert(p, text@)),
            },
            wf(final(self)@),
    {
        let (path, cur) = match &self.save_as_popup {
            None => return ,
            Some(p) => if p.select_all {
                (String::new(), 0usize)
            } else {
                (p.path_input.clone(), p.cursor)
            },
        };
        let out = insert_str_at(path.as_str(), cur, text);
        let total = chars_of(out.as_str()).len();
        let tlen = chars_of(text).len();
        let ghost q = if old(self)@.save_as->0.select_all {
            save_as_cleared()
        } else {
            old(self)@.save_as->0
        };
        assert(path@ == q.path && cur == q.cursor);
        self.save_as_popup = Some(
            SaveAsPopupState { path_input: out, cursor: cur + tlen, select_all: false },
        );
        assert(final(self)@ =~= set_save_as(old(self)@, save_as_insert(old(self)@.save_as->0, text@)));
    }

    /// Backspace in the "Save As" path.
    pub fn save_as_backspace(&mut self)
        requires
            wf(old(self)@),
        ensures
            match old(self)@.save_as {
                None => final(self)@ == old(self)@,
                Some(p) => final(self)@ == set_save_as(old(self)@, save_as_backspace_view(p)),
            },
            wf(final(self)@),
    {
        let (path, cur, sel) = match &self.save_as_popup {
            None => return ,
            Some(p) => (p.path_input.clone(), p.cursor, p.select_all),
        };
        if sel {
            self.save_as_popup = Some(
                SaveAsPopupState { path_input: String::new(), cursor: 0, select_all: false },
            );
            assert(final(self)@ =~= set_save_as(old(self)@, save_as_cleared()));
            return ;
        }
        if cur > 0 {
            let mut path = path;
            let _ = remove_char_at(&mut path, cur - 1);
            self.save_as_popup = Some(
                SaveAsPopupState { path_input: path, cursor: cur - 1, select_all: false },
            );
        }
        assert(final(self)@ =~= set_save_as(
            old(self)@,
            save_as_backspace_view(old(self)@.save_as->0),
        ));
    }

    /// Delete in the "Save As" path.
    pub fn save_as_delete(&mut self)
        requires
            wf(old(self)@),
        ensures
            match old(self)@.save_as {
                None => final(self)@ == old(self)@,
                Some(p) => final(self)@ == set_save_as(old(self)@, save_as_delete_view(p)),
            },
            wf(final(self)@),
    {
        let (path, cur, sel) = match &self.save_as_popup {
            None => return ,
            Some(p) => (p.path_input.clone(), p.cursor, p.select_all),
        };
        if sel {
            self.save_as_popup = Some(
                SaveAsPopupState { path_input: String::new(), cursor: 0, select_all: false },
            );
            assert(final(self)@ =~= set_save_as(old(self)@, save_as_cleared()));
            return ;
        }
        let mut path = path;
        let _ = remove_char_at(&mut path, cur);
        self.save_as_popup = Some(SaveAsPopupState { path_input: path, cursor: cur, select_all: false });
        assert(final(self)@ =~= set_save_as(old(self)@, save_as_delete_view(old(self)@.save_as->0)));
    }

    /// Enter in the "Save As" popup: asks to save to the trimmed path.
    pub fn submit_save_as_popup(&mut self) -> (res: EditorRequest)
        ensures
            match old(self)@.save_as {
                None => final(self)@ == old(self)@ && res@ == RequestView::Nothing,
                Some(p) => (final(self)@, res@) == submit_save_as_op(old(self)@, p),
            },
    {
        let path = match &self.save_as_popup {
            None => return EditorRequest::Nothing,
            Some(p) => trim_text(p.path_input.as_str()),
        };
        if path.as_str().is_empty() {
            self.set_status("Save As path cannot be empty.".to_owned());
            return EditorRequest::Nothing;
        }
        EditorRequest::SaveAs(path)
    }
}

impl Editor {
    /// Whether Enter would continue an ordered list item numbered
    /// `usize::MAX` (the text before the cursor is such an item).
    pub fn newline_would_overflow(&self) -> (res: bool)
        requires
            wf(self@),
        ensures
            res == list_number_is_max(before_cursor(self@)),
    {
        let line = match self.doc.line(self.cursor.y) {
            Some(l) => l,
            None => return false,
        };
        let cs = chars_of(line.as_str());
        let k = if self.cursor.x < cs.len() {
            self.cursor.x
        } else {
            cs.len()
        };
        let before = string_from_chars(cs.as_slice(), 0, k);
        assert(before@ =~= before_cursor(self@));
        crate::markdown::list_number_overflows(before.as_str())
    }

    /// The first occurrence of `query` in the document at or after column
    /// `start_col` of line `start_line`, looking at the lines below from their
    /// start; none for an empty query.
    pub fn find_from(&self, query: &str, start_line: usize, start_col: usize) -> (res: Option<Position>)
        ensures
            res == find_in_lines(self@.lines, query@, start_line as int, start_col as int),
    {
        find_in_lines_from(&self.doc.lines, query, start_line, start_col)
    }

    /// Finds `query` after the cursor (or else from the start) and moves the
    /// cursor there.
    pub fn find_next_occurrence(&mut self, query: &str, cols: u16, rows: u16)
        requires
            wf(old(self)@),
        ensures
            final(self)@ == find_next_op(old(self)@, query@, cols, rows),
            wf(final(self)@),
    {
        if query.is_empty() {
            self.set_status("Find text cannot be empty.".to_owned());
            return ;
        }
        let start_line = self.cursor.y;
        let start_col = self.cursor.x.saturating_add(1);
        let found = match self.find_from(query, start_line, start_col) {
            Some(p) => Some(p),
            None => self.find_from(query, 0, 0),
        };
        match found {
            Some(pos) => {
                // Called for its contract: the line count fits in a `usize`.
                let _count = self.doc.line_count();
                let ghost t = old(self)@.lines;
                proof {
                    crate::search::lemma_find_in_lines_valid(t, query@, start_line as int, start_col as int);
                    crate::search::lemma_find_in_lines_valid(t, query@, 0, 0);
                }
                let len = self.doc.line_char_len(pos.y);
                proof {
                    let c0 = if find_in_lines(t, query@, start_line as int, start_col as int) is Some {
                        if pos.y == start_line {
                            start_col as int
                        } else {
                            0
                        }
                    } else {
                        0
                    };
                    crate::search::lemma_find_in_line_valid(t[pos.y as int], query@, c0);
                }
                self.clear_selection();
                self.cursor = pos;
                self.scroll(cols, rows);
                let mut msg = "Found \"".to_owned();
                push_str(&mut msg, query);
                push_str(&mut msg, "\" at Ln ");
                push_str(&mut msg, decimal_string(pos.y + 1).as_str());
                push_str(&mut msg, ", Col ");
                push_str(&mut msg, decimal_string(pos.x + 1).as_str());
                push_str(&mut msg, ".");
                proof {
                    reveal_strlit("Found \"");
                    reveal_strlit("\" at Ln ");
                    reveal_strlit(", Col ");
                    reveal_strlit(".");
                }
                assert(msg@ =~= found_msg(query@, pos));
                self.set_status(msg);
            },
            None => {
                let mut msg = "No matches for \"".to_owned();
                push_str(&mut msg, query);
                push_str(&mut msg, "\".");
                self.set_status(msg);
            },
        }
    }

    /// Replaces the first occurrence of `query` at or after the cursor (or
    /// else the first in the buffer) by `replacement`, as one edit, and says
    /// how many occurrences are left.
    pub fn replace_next_occurrence(&mut self, query: &str, replacement: &str, cols: u16, rows: u16)
        requires
            wf(old(self)@),
        ensures
            final(self)@ == replace_next_op(old(self)@, query@, replacement@, cols, rows),
            wf(final(self)@),
    {
        if query.is_empty() {
            self.set_status("Find text cannot be empty.".to_owned());
            return ;
        }
        let start_line = self.cursor.y;
        let start_col = self.cursor.x;
        let found = match self.find_from(query, start_line, start_col) {
            Some(p) => Some(p),
            None => self.find_from(query, 0, 0),
        };
        match found {
            Some(pos) => {
                // Called for its contract: the line count fits in a `usize`.
                let _count = self.doc.line_count();
                let ghost t = old(self)@.lines;
                proof {
                    crate::search::lemma_find_in_lines_valid(t, query@, start_line as int, start_col as int);
                    crate::search::lemma_find_in_lines_valid(t, query@, 0, 0);
                    let c0 = if find_in_lines(t, query@, start_line as int, start_col as int) is Some {
                        if pos.y == start_line {
                            start_col as int
                        } else {
                            0
                        }
                    } else {
                        0
                    };
                    crate::search::lemma_find_in_line_valid(t[pos.y as int], query@, c0);
                }
                let qlen = chars_of(query).len();
                let (new_line, col) = match self.doc.line(pos.y) {
                    Some(line) => replace_span(line.as_str(), pos.x, qlen, replacement),
                    None => return ,
                };
                let ghost lines = t.update(
                    pos.y as int,
                    replace_at(t[pos.y as int], pos.x as int, query@.len() as int, replacement@),
                );
                self.begin_edit();
                self.doc.lines.set(pos.y, new_line);
                self.doc.modified = true;
                self.selection_anchor = None;
                self.cursor = Position { x: col, y: pos.y };
                assert(lines_view(self.doc.lines@) =~= lines);
                self.scroll(cols, rows);
                let left = count_in_all_lines(&self.doc.lines, query);
                let mut msg = "Replaced \"".to_owned();
                push_str(&mut msg, query);
                push_str(&mut msg, "\"; ");
                push_str(&mut msg, decimal_string(left).as_str());
                push_str(&mut msg, " remaining.");
                assert(msg@ =~= replaced_next_msg(query@, left as nat));
                self.set_status(msg);
            },
            None => {
                let mut msg = "No matches for \"".to_owned();
                push_str(&mut msg, query);
                push_str(&mut msg, "\".");
                self.set_status(msg);
            },
        }
    }

    /// Replaces every occurrence of `query` by `replacement`, as one edit.
    pub fn replace_all_occurrences(&mut self, query: &str, replacement: &str)
        requires
            wf(old(self)@),
        ensures
            final(self)@ == replace_all_op(old(self)@, query@, replacement@),
            wf(final(self)@),
    {
        if query.is_empty() {
            self.set_status("Find text cannot be empty.".to_owned());
            return ;
        }
        let (new_lines, total) = crate::search::replace_in_all_lines(
            &self.doc.lines,
            query,
            replacement,
        );
        if total == 0 {
            let mut msg = "No matches for \"".to_owned();
            push_str(&mut msg, query);
            push_str(&mut msg, "\".");
            self.set_status(msg);
            return ;
        }
        self.begin_edit();
        self.doc.lines = new_lines;
        self.doc.modified = true;
        self.clamp_cursor_to_document();
        let mut msg = "Replaced ".to_owned();
        push_str(&mut msg, decimal_string(total).as_str());
        push_str(&mut msg, " occurrence(s) of \"");
        push_str(&mut msg, query);
        push_str(&mut msg, "\".");
        self.set_status(msg);
    }

    /// Enter in the search popup.
    pub fn submit_search_popup(&mut self, cols: u16, rows: u16)
        requires
            wf(old(self)@),
        ensures
            match old(self)@.search {
                None => final(self)@ == old(self)@,
                Some(p) => final(self)@ == submit_search_op(old(self)@, p, cols, rows),
            },
            wf(final(self)@),
    {
        let (mode, find, replace, field) = match &self.search_popup {
            None => return ,
            Some(p) => (p.mode, p.find_input.clone(), p.replace_input.clone(), p.active_field),
        };
        let trimmed = trim_text(find.as_str());
        if trimmed.as_str().is_empty() {
            self.set_status("Find text cannot be empty.".to_owned());
            return ;
        }
        match mode {
            SearchPopupMode::Find => {
                self.last_search_query = find.clone();
                self.find_next_occurrence(find.as_str(), cols, rows);
                self.search_popup = None;
            },
            SearchPopupMode::Replace => {
                if field == SearchPopupField::Find {
                    self.search_popup = Some(
                        SearchPopupState {
                            mode,
                            find_input: find,
                            replace_input: replace,
                            active_field: SearchPopupField::Replace,
                        },
                    );
                    return ;
                }
                self.last_search_query = find.clone();
                self.replace_next_occurrence(find.as_str(), replace.as_str(), cols, rows);
            },
        }
    }

    /// A key in the search popup; `false` when there is no popup.
    pub fn handle_search_popup_key(&mut self, key: KeyInput, cols: u16, rows: u16) -> (res: bool)
        requires
            wf(old(self)@),
        ensures
            match old(self)@.search {
                None => !res && final(self)@ == old(self)@,
                Some(p) => res && final(self)@ == search_key_op(old(self)@, p, key, cols, rows),
            },
            wf(final(self)@),
    {
        let (mode, find, replace, field) = match &self.search_popup {
            None => return false,
            Some(p) => (p.mode, p.find_input.clone(), p.replace_input.clone(), p.active_field),
        };
        let ghost p = old(self)@.search->0;
        let active = match field {
            SearchPopupField::Find => find.clone(),
            SearchPopupField::Replace => replace.clone(),
        };
        assert(active@ == active_text(p));
        match key.code {
            KeyCode::Esc => {
                self.search_popup = None;
                self.set_status("Search cancelled.".to_owned());
            },
            KeyCode::Tab | KeyCode::Up | KeyCode::Down => {
                if mode == SearchPopupMode::Replace {
                    let toggled = match field {
                        SearchPopupField::Find => SearchPopupField::Replace,
                        SearchPopupField::Replace => SearchPopupField::Find,
                    };
                    self.search_popup = Some(
                        SearchPopupState {
                            mode,
                            find_input: find,
                            replace_input: replace,
                            active_field: toggled,
                        },
                    );
                    assert(final(self)@ =~= search_key_op(old(self)@, p, key, cols, rows));
                }
            },
            KeyCode::Backspace => {
                let shorter = drop_last_char(active.as_str());
                self.set_active_search_text(mode, find, replace, field, shorter);
            },
            KeyCode::Enter => {
                self.submit_search_popup(cols, rows);
            },
            KeyCode::Char(c) => {
                if key.ctrl && c == 'v' {
                    let mut longer = active;
                    push_str(&mut longer, self.clipboard.as_str());
                    self.set_active_search_text(mode, find, replace, field, longer);
                } else if !key.ctrl && !key.alt {
                    let mut longer = active;
                    push_char(&mut longer, c);
                    self.set_active_search_text(mode, find, replace, field, longer);
                }
            },
            _ => {},
        }
        true
    }

    /// Puts back the search popup with `text` in its active input box.
    fn set_active_search_text(
        &mut self,
        mode: SearchPopupMode,
        find: String,
        replace: String,
        field: SearchPopupField,
        text: String,
    )
        ensures
            final(self)@ == set_search(
                old(self)@,
                with_active_text(
                    SearchView { mode, find: find@, replace: replace@, active_field: field },
                    text@,
                ),
            ),
    {
        self.search_popup = Some(
            match field {
                SearchPopupField::Find => SearchPopupState {
                    mode,
                    find_input: text,
                    replace_input: replace,
                    active_field: field,
                },
                SearchPopupField::Replace => SearchPopupState {
                    mode,
                    find_input: find,
                    replace_input: text,
                    active_field: field,
                },
            },
        );
        assert(final(self)@ =~= set_search(
            old(self)@,
            with_active_text(
                SearchView { mode, find: find@, replace: replace@, active_field: field },
                text@,
            ),
        ));
    }

    /// Moves the "Save As" cursor to `cursor`, with `select_all`.
    fn set_save_as_cursor(&mut self, cursor: usize, select_all: bool)
        ensures
            match old(self)@.save_as {
                None => final(self)@ == old(self)@,
                Some(p) => final(self)@ == set_save_as(
                    old(self)@,
                    SaveAsView { cursor, select_all, ..p },
                ),
            },
    {
        let path = match &self.save_as_popup {
            None => return ,
            Some(p) => p.path_input.clone(),
        };
        self.save_as_popup = Some(SaveAsPopupState { path_input: path, cursor, select_all });
        assert(final(self)@ =~= set_save_as(
            old(self)@,
            SaveAsView { cursor, select_all, ..old(self)@.save_as->0 },
        ));
    }

    /// A key in the "Save As" popup; `false` when there is no popup.
    pub fn handle_save_as_popup_key(&mut self, key: KeyInput) -> (res: (bool, EditorRequest))
        requires
            wf(old(self)@),
        ensures
            match old(self)@.save_as {
                None => !res.0 && res.1@ == RequestView::Nothing && final(self)@ == old(self)@,
                Some(p) => res.0 && (final(self)@, res.1@) == save_as_key_op(old(self)@, p, key),
            },
            wf(final(self)@),
    {
        let (len, cur) = match &self.save_as_popup {
            None => return (false, EditorRequest::Nothing),
            Some(p) => (chars_of(p.path_input.as_str()).len(), p.cursor),
        };
        match key.code {
            KeyCode::Esc => {
                self.save_as_popup = None;
                self.set_status("Save As cancelled.".to_owned());
            },
            KeyCode::Backspace => self.save_as_backspace(),
            KeyCode::Delete => self.save_as_delete(),
            KeyCode::Left => self.set_save_as_cursor(cur.saturating_sub(1), false),
            KeyCode::Right => {
                let next = if cur < len {
                    cur + 1
                } else {
                    len
                };
                self.set_save_as_cursor(next, false);
            },
            KeyCode::Home => self.set_save_as_cursor(0, false),
            KeyCode::End => self.set_save_as_cursor(len, false),
            KeyCode::Enter => {
                let req = self.submit_save_as_popup();
                return (true, req);
            },
            KeyCode::Char(c) => {
                if key.ctrl && c == 'v' {
                    let paste_text = self.clipboard.clone();
                    if !paste_text.as_str().is_empty() {
                        self.save_as_insert_text(paste_text.as_str());
                    }
                } else if key.ctrl && c == 'a' {
                    self.set_save_as_cursor(len, true);
                } else if !key.ctrl && !key.alt {
                    let mut buffer = String::new();
                    push_char(&mut buffer, c);
                    self.save_as_insert_text(buffer.as_str());
                }
            },
            _ => {},
        }
        (true, EditorRequest::Nothing)
    }
}

/// A key while `menu` is open: whether the menu took it, the new state,
/// and what the caller has to do.
pub open spec fn menu_key_op(v: EditorView, menu: MenuKind, key: KeyInput, cols: u16, rows: u16) -> (
    bool,
    EditorView,
    RequestView,
) {
    match key.code {
        KeyCode::Esc => (true, close_menu(v), RequestView::Nothing),
        KeyCode::Left => (
            true,
            open_menu_op(v, spec_menu_by_index(((spec_menu_index(menu) + 3) % 4) as nat)),
            RequestView::Nothing,
        ),
        KeyCode::Right => (
            true,
            open_menu_op(v, spec_menu_by_index(((spec_menu_index(menu) + 1) % 4) as nat)),
            RequestView::Nothing,
        ),
        KeyCode::Up => (true, select_prev_item_op(v, menu), RequestView::Nothing),
        KeyCode::Down => (true, select_next_item_op(v, menu), RequestView::Nothing),
        KeyCode::Enter => {
            let (v1, r) = activate_op(v, menu, cols, rows);
            (true, close_menu(v1), r)
        },
        KeyCode::Char(c) => if key.alt {
            (true, alt_menu_op(v, c), RequestView::Nothing)
        } else if key.ctrl {
            (false, v, RequestView::Nothing)
        } else {
            let lc = ascii_lower(c);
            match spec_menu_from_mnemonic(lc) {
                Some(target) => (true, open_menu_op(v, target), RequestView::Nothing),
                None => match first_mnemonic_from(spec_menu_entries(menu), lc, 0) {
                    Some(i) => {
                        let (v1, r) = activate_op(
                            EditorView { active_menu_index: i, ..v },
                            menu,
                            cols,
                            rows,
                        );
                        (true, close_menu(v1), r)
                    },
                    None => (false, v, RequestView::Nothing),
                },
            }
        },
        _ => (false, v, RequestView::Nothing),
    }
}

/// The action of a Ctrl key with character `c` (Shift held or not), if
/// any.
pub open spec fn ctrl_action(c: char, shift: bool) -> Option<MenuAction> {
    if c == 'q' {
        Some(MenuAction::Quit)
    } else if shift && ascii_lower(c) == 's' {
        Some(MenuAction::SaveAs)
    } else if ascii_lower(c) == 's' {
        Some(MenuAction::Save)
    } else if c == 'z' {
        Some(MenuAction::Undo)
    } else if c == 'y' {
        Some(MenuAction::Redo)
    } else if c == 'x' {
        Some(MenuAction::Cut)
    } else if c == 'c' {
        Some(MenuAction::Copy)
    } else if c == 'v' {
        Some(MenuAction::Paste)
    } else if c == 'f' {
        Some(MenuAction::Find)
    } else if c == 'r' {
        Some(MenuAction::Replace)
    } else if c == 'p' {
        Some(MenuAction::TogglePreview)
    } else {
        None
    }
}

/// A cursor key: the cursor moves, Shift alone extending the selection
/// and any other key dropping it.
#[verifier::opaque]
pub open spec fn move_key_op(v: EditorView, key: KeyInput, rows: u16) -> EditorView {
    let ext = spec_shift_only(key);
    let moved = match key.code {
        KeyCode::Left => move_left_op(v),
        KeyCode::Right => move_right_op(v),
        KeyCode::Up => move_up_op(v),
        KeyCode::Down => move_down_op(v),
        KeyCode::PageUp => page_up_op(v, rows),
        KeyCode::PageDown => page_down_op(v, rows),
        KeyCode::Home => at(v, Position { x: 0, y: v.cursor.y }),
        _ => at(v, Position { x: line_len(v, v.cursor.y as int) as usize, y: v.cursor.y }),
    };
    selection_after_move(moved, v.cursor, ext)
}

/// A key that edits the buffer, as one undoable edit: a character typed,
/// Backspace, Delete, Enter (which cannot go on past an ordered list item
/// numbered `usize::MAX`) or Tab (four spaces).
#[verifier::opaque]
pub open spec fn edit_key_op(v: EditorView, key: KeyInput) -> (EditorView, RequestView) {
    let v1 = begin_edit_op(v);
    let nothing = RequestView::Nothing;
    match key.code {
        KeyCode::Char(c) => (insert_char_op(v1, c), nothing),
        KeyCode::Backspace => (backspace_op(v1), nothing),
        KeyCode::Delete => (delete_forward_op(v1), nothing),
        KeyCode::Enter => if enter_overflows(v1) {
            (delete_selection_op(v1).0, RequestView::ListNumberOverflow)
        } else {
            (insert_newline_op(v1), nothing)
        },
        _ => (insert_chars_op(v1, seq![' ', ' ', ' ', ' ']), nothing),
    }
}

/// A key with no popup and no menu taking it: shortcuts, cursor moves
/// (Shift alone extending the selection) and typing.
pub open spec fn editing_key_op(v: EditorView, key: KeyInput, cols: u16, rows: u16) -> (
    EditorView,
    RequestView,
) {
    let nothing = RequestView::Nothing;
    match key.code {
        KeyCode::Char(c) => if key.alt {
            (alt_menu_op(v, c), nothing)
        } else if key.ctrl {
            match ctrl_action(c, key.shift) {
                Some(action) => menu_action_op(v, action, cols, rows),
                None => (v, nothing),
            }
        } else {
            edit_key_op(v, key)
        },
        KeyCode::Esc => (EditorView { selection_anchor: None, ..v }, nothing),
        KeyCode::F(n) => if n == 1 {
            menu_action_op(v, MenuAction::Keybindings, cols, rows)
        } else {
            (v, nothing)
        },
        KeyCode::Left | KeyCode::Right | KeyCode::Up | KeyCode::Down | KeyCode::PageUp
        | KeyCode::PageDown | KeyCode::Home | KeyCode::End => (move_key_op(v, key, rows), nothing),
        KeyCode::Backspace | KeyCode::Delete | KeyCode::Enter | KeyCode::Tab => edit_key_op(v, key),
        KeyCode::Other => (v, nothing),
    }
}

/// A key: the "Save As" popup takes it when open, else the search popup,
/// else the open menu; a key the menu does not take closes it and goes on
/// to editing. The view then scrolls to the cursor, unless the program
/// cannot go on.
pub open spec fn handle_key_op(v: EditorView, key: KeyInput, cols: u16, rows: u16) -> (
    EditorView,
    RequestView,
) {
    match v.save_as {
        Some(p) => {
            let (v1, r) = save_as_key_op(v, p, key);
            (scroll_op(v1, cols, rows), r)
        },
        None => match v.search {
            Some(p) => (scroll_op(search_key_op(v, p, key, cols, rows), cols, rows), RequestView::Nothing),
            None => {
                let (taken, v1, r1) = match v.active_menu {
                    Some(menu) => menu_key_op(v, menu, key, cols, rows),
                    None => (false, v, RequestView::Nothing),
                };
                if taken {
                    (scroll_op(v1, cols, rows), r1)
                } else {
                    let v2 = if v.active_menu is Some {
                        close_menu(v)
                    } else {
                        v
                    };
                    let (v3, r) = editing_key_op(v2, key, cols, rows);
                    if r is ListNumberOverflow {
                        (v3, r)
                    } else {
                        (scroll_op(v3, cols, rows), r)
                    }
                }
            },
        },
    }
}

impl Editor {
    /// A key while `menu` is open; says whether the menu took it.
    #[verifier::spinoff_prover]
    #[verifier::rlimit(40)]
    pub fn handle_menu_mode_key(&mut self, menu: MenuKind, key: KeyInput, cols: u16, rows: u16) -> (res: (
        bool,
        EditorRequest,
    ))
        requires
            wf(old(self)@),
        ensures
            (res.0, final(self)@, res.1@) == menu_key_op(old(self)@, menu, key, cols, rows),
            wf(final(self)@),
    {
        match key.code {
            KeyCode::Esc => {
                self.active_menu = None;
                self.active_menu_index = 0;
                (true, EditorRequest::Nothing)
            },
            KeyCode::Left => {
                self.open_menu(prev_menu(menu));
                (true, EditorRequest::Nothing)
            },
            KeyCode::Right => {
                self.open_menu(next_menu(menu));
                (true, EditorRequest::Nothing)
            },
            KeyCode::Up => {
                self.select_prev_menu_item(menu);
                (true, EditorRequest::Nothing)
            },
            KeyCode::Down => {
                self.select_next_menu_item(menu);
                (true, EditorRequest::Nothing)
            },
            KeyCode::Enter => {
                let req = self.activate_selected_menu_item(menu, cols, rows);
                self.active_menu = None;
                self.active_menu_index = 0;
                (true, req)
            },
            KeyCode::Char(c) => {
                if key.alt {
                    self.handle_alt_menu(c);
                    return (true, EditorRequest::Nothing);
                }
                if key.ctrl {
                    return (false, EditorRequest::Nothing);
                }
                let lc = to_ascii_lowercase(c);
                match menu_from_mnemonic(lc) {
                    Some(target) => {
                        self.open_menu(target);
                        return (true, EditorRequest::Nothing);
                    },
                    None => {},
                }
                match menu_item_index_by_mnemonic(menu, lc) {
                    Some(index) => {
                        proof {
                            crate::menu::lemma_first_mnemonic_bound(spec_menu_entries(menu), lc, 0);
                        }
                        self.active_menu_index = index;
                        let req = self.activate_selected_menu_item(menu, cols, rows);
                        self.active_menu = None;
                        self.active_menu_index = 0;
                        (true, req)
                    },
                    None => (false, EditorRequest::Nothing),
                }
            },
            _ => (false, EditorRequest::Nothing),
        }
    }
}

/// The action of a Ctrl key with character `c`, if any.
pub fn ctrl_key_action(c: char, shift: bool) -> (res: Option<MenuAction>)
    ensures
        res == ctrl_action(c, shift),
{
    let lc = to_ascii_lowercase(c);
    if c == 'q' {
        Some(MenuAction::Quit)
    } else if shift && lc == 's' {
        Some(MenuAction::SaveAs)
    } else if lc == 's' {
        Some(MenuAction::Save)
    } else if c == 'z' {
        Some(MenuAction::Undo)
    } else if c == 'y' {
        Some(MenuAction::Redo)
    } else if c == 'x' {
        Some(MenuAction::Cut)
    } else if c == 'c' {
        Some(MenuAction::Copy)
    } else if c == 'v' {
        Some(MenuAction::Paste)
    } else if c == 'f' {
        Some(MenuAction::Find)
    } else if c == 'r' {
        Some(MenuAction::Replace)
    } else if c == 'p' {
        Some(MenuAction::TogglePreview)
    } else {
        None
    }
}

impl Editor {
    /// A cursor key.
    pub fn handle_move_key(&mut self, key: KeyInput, rows: u16)
        requires
            wf(old(self)@),
            key.code is Left || key.code is Right || key.code is Up || key.code is Down
                || key.code is PageUp || key.code is PageDown || key.code is Home || key.code is End,
        ensures
            final(self)@ == move_key_op(old(self)@, key, rows),
    {
        reveal(move_key_op);
        let ext = shift_only(key);
        match key.code {
            KeyCode::Left => self.move_cursor_left_with_selection(ext),
            KeyCode::Right => self.move_cursor_right_with_selection(ext),
            KeyCode::Up => self.move_cursor_up_with_selection(ext),
            KeyCode::Down => self.move_cursor_down_with_selection(ext),
            KeyCode::PageUp => self.page_up_with_selection(rows, ext),
            KeyCode::PageDown => self.page_down_with_selection(rows, ext),
            KeyCode::Home => self.home_with_selection(ext),
            _ => self.end_with_selection(ext),
        }
    }

    /// A key that edits the buffer: a character typed, Backspace, Delete,
    /// Enter or Tab.
    pub fn handle_edit_key(&mut self, key: KeyInput) -> (res: EditorRequest)
        requires
            wf(old(self)@),
            key.code is Char || key.code is Backspace || key.code is Delete || key.code is Enter
                || key.code is Tab,
        ensures
            (final(self)@, res@) == edit_key_op(old(self)@, key),
            wf(final(self)@),
    {
        reveal(edit_key_op);
        self.begin_edit();
        match key.code {
            KeyCode::Char(c) => self.insert_char(c),
            KeyCode::Backspace => self.backspace(),
            KeyCode::Delete => self.delete_forward(),
            KeyCode::Enter => {
                proof {
                    crate::editor::lemma_delete_selection_wf(self@);
                }
                self.delete_selection();
                if self.newline_would_overflow() {
                    return EditorRequest::ListNumberOverflow;
                }
                self.insert_newline();
            },
            _ => {
                let spaces = vec![' ', ' ', ' ', ' '];
                assert(spaces@.skip(0) =~= seq![' ', ' ', ' ', ' ']);
                self.insert_chars(&spaces, 0);
            },
        }
        EditorRequest::Nothing
    }

    /// A key that no popup and no menu takes.
    pub fn handle_editing_key(&mut self, key: KeyInput, cols: u16, rows: u16) -> (res: EditorRequest)
        requires
            wf(old(self)@),
        ensures
            (final(self)@, res@) == editing_key_op(old(self)@, key, cols, rows),
            wf(final(self)@),
    {
        match key.code {
            KeyCode::Char(c) => {
                if key.alt {
                    self.handle_alt_menu(c);
                    return EditorRequest::Nothing;
                }
                if key.ctrl {
                    return match ctrl_key_action(c, key.shift) {
                        Some(action) => self.invoke_menu_action(action, cols, rows),
                        None => EditorRequest::Nothing,
                    };
                }
                self.handle_edit_key(key)
            },
            KeyCode::Esc => {
                self.clear_selection();
                EditorRequest::Nothing
            },
            KeyCode::F(n) => {
                if n == 1 {
                    self.invoke_menu_action(MenuAction::Keybindings, cols, rows)
                } else {
                    EditorRequest::Nothing
                }
            },
            KeyCode::Left | KeyCode::Right | KeyCode::Up | KeyCode::Down | KeyCode::PageUp
            | KeyCode::PageDown | KeyCode::Home | KeyCode::End => {
                self.handle_move_key(key, rows);
                proof {
                    reveal(move_key_op);
                }
                EditorRequest::Nothing
            },
            KeyCode::Backspace | KeyCode::Delete | KeyCode::Enter | KeyCode::Tab => {
                self.handle_edit_key(key)
            },
            KeyCode::Other => EditorRequest::Nothing,
        }
    }

    /// A key, on a `cols` by `rows` screen; says what the caller has to do
    /// after it.
    pub fn handle_key(&mut self, key: KeyInput, cols: u16, rows: u16) -> (res: EditorRequest)
        requires
            wf(old(self)@),
        ensures
            (final(self)@, res@) == handle_key_op(old(self)@, key, cols, rows),
            wf(final(self)@),
    {
        if self.save_as_popup.is_some() {
            let (_, req) = self.handle_save_as_popup_key(key);
            self.scroll(cols, rows);
            return req;
        }
        if self.search_popup.is_some() {
            let _ = self.handle_search_popup_key(key, cols, rows);
            self.scroll(cols, rows);
            return EditorRequest::Nothing;
        }
        match self.active_menu {
            Some(menu) => {
                let (taken, req) = self.handle_menu_mode_key(menu, key, cols, rows);
                if taken {
                    self.scroll(cols, rows);
                    return req;
                }
                self.active_menu = None;
                self.active_menu_index = 0;
            },
            None => {},
        }
        let req = self.handle_editing_key(key, cols, rows);
        match req {
            EditorRequest::ListNumberOverflow => req,
            _ => {
                self.scroll(cols, rows);
                req
            },
        }
    }
}

/// What the mouse did.
#[derive(Clone, Copy, PartialEq, Eq, Debug, Structural)]
pub enum MouseKind {
    /// The left button went down.
    LeftDown,
    /// The mouse moved with the left button down.
    LeftDrag,
    /// The left button went up.
    LeftUp,
    /// Anything else.
    Other,
}

/// A mouse event at a screen cell.
#[derive(Clone, Copy, PartialEq, Eq, Debug, Structural)]
pub struct MouseInput {
    pub kind: MouseKind,
    pub column: u16,
    pub row: u16,
}

/// A click in the text area: the cursor goes to the position under it, the
/// selection is dropped and a drag may start there; outside the text area
/// no drag starts.
pub open spec fn click_text_op(v: EditorView, m: MouseInput, cols: u16, rows: u16) -> EditorView {
    match mouse_position(v, m.column as int, m.row as int, cols as int, rows as int) {
        Some(p) => scroll_op(
            EditorView { cursor: p, selection_anchor: None, mouse_drag_anchor: Some(p), ..v },
            cols,
            rows,
        ),
        None => EditorView { mouse_drag_anchor: None, ..v },
    }
}

/// A mouse event on a `cols` by `rows` screen (ignored while a popup is
/// open): a click on the top bar opens the menu under it (or closes the
/// open one); a click on an entry of the open dropdown runs it; a click
/// elsewhere closes the menu and moves the cursor; a drag selects from
/// where it started.
pub open spec fn mouse_op(v: EditorView, m: MouseInput, cols: u16, rows: u16) -> (
    EditorView,
    RequestView,
) {
    let nothing = RequestView::Nothing;
    if v.search is Some || v.save_as is Some {
        (v, nothing)
    } else {
        match m.kind {
            MouseKind::LeftDown => if m.row == 0 {
                let v1 = match crate::menu::spec_menu_at_column(m.column as int) {
                    Some(menu) => open_menu_op(v, menu),
                    None => EditorView { active_menu: None, ..v },
                };
                (EditorView { mouse_drag_anchor: None, ..v1 }, nothing)
            } else {
                match v.active_menu {
                    Some(menu) => match crate::menu::spec_dropdown_item_at(
                        menu,
                        m.column as int,
                        m.row as int,
                        cols as int,
                        rows as int,
                    ) {
                        Some(i) => {
                            let (v1, r) = activate_op(
                                EditorView { active_menu_index: i, ..v },
                                menu,
                                cols,
                                rows,
                            );
                            (EditorView { mouse_drag_anchor: None, ..close_menu(v1) }, r)
                        },
                        None => (click_text_op(close_menu(v), m, cols, rows), nothing),
                    },
                    None => (click_text_op(v, m, cols, rows), nothing),
                }
            },
            MouseKind::LeftDrag => match v.mouse_drag_anchor {
                Some(a) => match mouse_position(
                    v,
                    m.column as int,
                    m.row as int,
                    cols as int,
                    rows as int,
                ) {
                    Some(p) => (
                        scroll_op(
                            close_menu(
                                normalize_anchor(
                                    EditorView { cursor: p, selection_anchor: Some(a), ..v },
                                ),
                            ),
                            cols,
                            rows,
                        ),
                        nothing,
                    ),
                    None => (v, nothing),
                },
                None => (v, nothing),
            },
            MouseKind::LeftUp => (EditorView { mouse_drag_anchor: None, ..v }, nothing),
            MouseKind::Other => (v, nothing),
        }
    }
}

impl Editor {
    /// A click in the text area.
    fn click_text(&mut self, m: MouseInput, cols: u16, rows: u16)
        requires
            wf(old(self)@),
        ensures
            final(self)@ == click_text_op(old(self)@, m, cols, rows),
            wf(final(self)@),
    {
        match self.editor_position_from_mouse(m.column, m.row, cols, rows) {
            Some(pos) => {
                // Called for its contract: the line count fits in a `usize`.
                let _count = self.doc.line_count();
                // Called for its contract: the length of the line fits in a `usize`.
                let _len = self.doc.line_char_len(pos.y);
                proof {
                    crate::layout::lemma_mouse_position_valid(
                        self@,
                        m.column as int,
                        m.row as int,
                        cols as int,
                        rows as int,
                    );
                }
                self.cursor = pos;
                self.clear_selection();
                self.mouse_drag_anchor = Some(pos);
                self.scroll(cols, rows);
            },
            None => {
                self.mouse_drag_anchor = None;
            },
        }
        assert(final(self)@ =~= click_text_op(old(self)@, m, cols, rows));
    }

    /// A mouse event on a `cols` by `rows` screen; says what the caller has
    /// to do after it.
    pub fn handle_mouse(&mut self, m: MouseInput, cols: u16, rows: u16) -> (res: EditorRequest)
        requires
            wf(old(self)@),
        ensures
            (final(self)@, res@) == mouse_op(old(self)@, m, cols, rows),
            wf(final(self)@),
    {
        if self.search_popup.is_some() || self.save_as_popup.is_some() {
            return EditorRequest::Nothing;
        }
        let col = m.column as usize;
        let row = m.row as usize;
        match m.kind {
            MouseKind::LeftDown => {
                if row == 0 {
                    match crate::menu::menu_at_column(col) {
                        Some(menu) => self.open_menu(menu),
                        None => {
                            self.active_menu = None;
                        },
                    }
                    self.mouse_drag_anchor = None;
                    return EditorRequest::Nothing;
                }
                match self.active_menu {
                    Some(menu) => {
                        match crate::menu::dropdown_item_at(
                            menu,
                            col,
                            row,
                            cols as usize,
                            rows as usize,
                        ) {
                            Some(index) => {
                                proof {
                                    crate::menu::lemma_dropdown_item_bound(
                                        menu,
                                        col as int,
                                        row as int,
                                        cols as int,
                                        rows as int,
                                    );
                                }
                                self.active_menu_index = index;
                                let req = self.activate_selected_menu_item(menu, cols, rows);
                                self.active_menu = None;
                                self.active_menu_index = 0;
                                self.mouse_drag_anchor = None;
                                return req;
                            },
                            None => {},
                        }
                        self.active_menu = None;
                        self.active_menu_index = 0;
                    },
                    None => {},
                }
                self.click_text(m, cols, rows);
            },
            MouseKind::LeftDrag => {
                match self.mouse_drag_anchor {
                    Some(anchor) => {
                        match self.editor_position_from_mouse(m.column, m.row, cols, rows) {
                            Some(pos) => {
                                // Called for its contract: the line count fits in a `usize`.
                                let _count = self.doc.line_count();
                                // Called for its contract: the length of the line fits in a `usize`.
                                let _len = self.doc.line_char_len(pos.y);
                                proof {
                                    crate::layout::lemma_mouse_position_valid(
                                        self@,
                                        m.column as int,
                                        m.row as int,
                                        cols as int,
                                        rows as int,
                                    );
                                }
                                self.cursor = pos;
                                self.selection_anchor = Some(anchor);
                                self.normalize_selection_anchor();
                                self.active_menu = None;
                                self.active_menu_index = 0;
                                self.scroll(cols, rows);
                            },
                            None => {},
                        }
                    },
                    None => {},
                }
            },
            MouseKind::LeftUp => {
                self.mouse_drag_anchor = None;
            },
            MouseKind::Other => {},
        }
        EditorRequest::Nothing
    }
}

/// In the "Save As" popup, Backspace right after typing a character gives
/// back the path and its cursor (when the path was not selected).
pub proof fn law_save_as_backspace_after_typing(p: SaveAsView, c: char)
    requires
        !p.select_all,
        p.cursor <= p.path.len(),
        p.cursor < usize::MAX,
    ensures
        save_as_backspace_view(save_as_insert(p, seq![c])) == p,
{
    let k = p.cursor as int;
    let q = save_as_insert(p, seq![c]);
    assert(q.path =~= p.path.take(k) + seq![c] + p.path.skip(k));
    assert(remove_at(q.path, k) =~= p.path);
}

/// Ctrl-Q twice on a modified buffer quits, whatever was open: the first
/// press warns, the second quits.
pub proof fn law_ctrl_q_twice_quits(v: EditorView, cols: u16, rows: u16)
    requires
        v.modified,
        v.quit_warning_countdown == 1,
        !v.should_quit,
        v.save_as is None,
        v.search is None,
        v.active_menu is None,
    ensures
        ({
            let key = KeyInput { code: KeyCode::Char('q'), ctrl: true, alt: false, shift: false };
            let w = handle_key_op(v, key, cols, rows).0;
            &&& !w.should_quit
            &&& handle_key_op(w, key, cols, rows).0.should_quit
        }),
{
    reveal(menu_action_op);
    let key = KeyInput { code: KeyCode::Char('q'), ctrl: true, alt: false, shift: false };
    assert(ctrl_action('q', false) == Some(MenuAction::Quit));
}

} // verus!
