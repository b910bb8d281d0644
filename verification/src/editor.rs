//! The editor's state and the decisions it takes on each key, mouse event
//! and command. Terminal input and output, files and time stay with the
//! caller: it hands over the screen size and the events, and performs the
//! requests the editor returns.
use vstd::prelude::*;
use vstd::std_specs::cmp::PartialEqSpecImpl;

use crate::document::{
    backspace_result, delete_forward_result, insert_char_result, insert_newline_result, lines_view, min_int, Document, Position,
};
use crate::markdown::{list_number_is_max, markdown_list_continuation, spec_list_continuation};
use crate::menu::MenuKind;
use crate::selection::{
    delete_selection_in_lines, delete_selection_lines, normalized_selection, selected_text_in_lines,
    spec_normalized_selection, spec_selected_text, SelectionRange,
};
use crate::text::chars_of;

verus! {

/// The state that undo and redo bring back.
pub struct EditorSnapshot {
    pub lines: Vec<String>,
    pub cursor: Position,
    pub offset: Position,
    pub selection_anchor: Option<Position>,
    pub modified: bool,
}

/// What a snapshot holds, as plain values.
pub struct SnapshotView {
    pub lines: Seq<Seq<char>>,
    pub cursor: Position,
    pub offset: Position,
    pub selection_anchor: Option<Position>,
    pub modified: bool,
}

impl View for EditorSnapshot {
    type V = SnapshotView;

    open spec fn view(&self) -> SnapshotView {
        SnapshotView {
            lines: lines_view(self.lines@),
            cursor: self.cursor,
            offset: self.offset,
            selection_anchor: self.selection_anchor,
            modified: self.modified,
        }
    }
}

/// Whether two line vectors hold the same text.
pub fn lines_equal(a: &Vec<String>, b: &Vec<String>) -> (res: bool)
    ensures
        res == (lines_view(a@) == lines_view(b@)),
{
    if a.len() != b.len() {
        return false;
    }
    let mut i: usize = 0;
    while i < a.len()
        invariant
            a@.len() == b@.len(),
            i <= a@.len(),
            forall|k: int| 0 <= k < i ==> a@[k]@ == b@[k]@,
        decreases a@.len() - i,
    {
        if a[i] != b[i] {
            assert(lines_view(a@)[i as int] != lines_view(b@)[i as int]);
            return false;
        }
        i += 1;
    }
    assert(lines_view(a@) =~= lines_view(b@));
    true
}

impl PartialEq for EditorSnapshot {
    fn eq(&self, other: &Self) -> (res: bool) {
        lines_equal(&self.lines, &other.lines) && self.cursor == other.cursor && self.offset
            == other.offset && self.selection_anchor == other.selection_anchor && self.modified
            == other.modified
    }
}

impl PartialEqSpecImpl for EditorSnapshot {
    open spec fn obeys_eq_spec() -> bool {
        true
    }

    open spec fn eq_spec(&self, other: &Self) -> bool {
        self@ == other@
    }
}

/// A copy of the lines.
pub fn clone_lines(lines: &Vec<String>) -> (res: Vec<String>)
    ensures
        lines_view(res@) == lines_view(lines@),
{
    let mut out: Vec<String> = Vec::new();
    let mut i: usize = 0;
    while i < lines.len()
        invariant
            i <= lines@.len(),
            lines_view(out@) == lines_view(lines@).take(i as int),
        decreases lines@.len() - i,
    {
        let c = lines[i].clone();
        assert(c@ == lines@[i as int]@);
        let ghost before = out@;
        out.push(c);
        assert(out@ == before.push(c));
        assert(lines_view(before.push(c)) =~= lines_view(before).push(c@));
        assert(lines_view(lines@).take(i + 1) =~= lines_view(lines@).take(i as int).push(
            lines@[i as int]@,
        ));
        i += 1;
    }
    assert(lines_view(lines@).take(i as int) =~= lines_view(lines@));
    out
}

/// Which input box of the search popup takes typing.
#[derive(Clone, Copy, PartialEq, Eq, Debug, Structural)]
pub enum SearchPopupField {
    Find,
    Replace,
}

/// Whether the search popup finds, or finds and replaces.
#[derive(Clone, Copy, PartialEq, Eq, Debug, Structural)]
pub enum SearchPopupMode {
    Find,
    Replace,
}

/// The find / replace popup.
pub struct SearchPopupState {
    pub mode: SearchPopupMode,
    pub find_input: String,
    pub replace_input: String,
    pub active_field: SearchPopupField,
}

/// The search popup as plain values.
pub struct SearchView {
    pub mode: SearchPopupMode,
    pub find: Seq<char>,
    pub replace: Seq<char>,
    pub active_field: SearchPopupField,
}

impl View for SearchPopupState {
    type V = SearchView;

    open spec fn view(&self) -> SearchView {
        SearchView {
            mode: self.mode,
            find: self.find_input@,
            replace: self.replace_input@,
            active_field: self.active_field,
        }
    }
}

impl SearchPopupState {
    /// A find popup holding `initial_query`.
    pub fn find(initial_query: &str) -> (res: SearchPopupState)
        ensures
            res@ == (SearchView {
                mode: SearchPopupMode::Find,
                find: initial_query@,
                replace: Seq::empty(),
                active_field: SearchPopupField::Find,
            }),
    {
        SearchPopupState {
            mode: SearchPopupMode::Find,
            find_input: initial_query.to_owned(),
            replace_input: String::new(),
            active_field: SearchPopupField::Find,
        }
    }

    /// A replace popup holding `initial_query` as the text to find.
    pub fn replace(initial_query: &str) -> (res: SearchPopupState)
        ensures
            res@ == (SearchView {
                mode: SearchPopupMode::Replace,
                find: initial_query@,
                replace: Seq::empty(),
                active_field: SearchPopupField::Find,
            }),
    {
        SearchPopupState {
            mode: SearchPopupMode::Replace,
            find_input: initial_query.to_owned(),
            replace_input: String::new(),
            active_field: SearchPopupField::Find,
        }
    }

    /// The input box that takes typing.
    pub fn active_field_mut(&mut self) -> (res: &mut String)
        ensures
            old(self).active_field == SearchPopupField::Find ==> *res == old(self).find_input
                && *final(self) == (SearchPopupState {
                find_input: *final(res),
                ..*old(self)
            }),
            old(self).active_field == SearchPopupField::Replace ==> *res == old(self).replace_input
                && *final(self) == (SearchPopupState {
                replace_input: *final(res),
                ..*old(self)
            }),
    {
        match self.active_field {
            SearchPopupField::Find => &mut self.find_input,
            SearchPopupField::Replace => &mut self.replace_input,
        }
    }
}

/// The "Save As" popup: a path being typed, with its cursor.
pub struct SaveAsPopupState {
    pub path_input: String,
    pub cursor: usize,
    pub select_all: bool,
}

/// The "Save As" popup as plain values.
pub struct SaveAsView {
    pub path: Seq<char>,
    pub cursor: usize,
    pub select_all: bool,
}

impl View for SaveAsPopupState {
    type V = SaveAsView;

    open spec fn view(&self) -> SaveAsView {
        SaveAsView { path: self.path_input@, cursor: self.cursor, select_all: self.select_all }
    }
}

/// The whole editor state as plain values.
#[verifier::ext_equal]
pub struct EditorView {
    pub lines: Seq<Seq<char>>,
    pub file_path: Option<Seq<char>>,
    pub modified: bool,
    pub cursor: Position,
    pub offset: Position,
    pub status: Seq<char>,
    pub status_serial: u64,
    pub active_menu: Option<MenuKind>,
    pub active_menu_index: usize,
    pub preview_mode: bool,
    pub clipboard: Seq<char>,
    pub undo: Seq<SnapshotView>,
    pub redo: Seq<SnapshotView>,
    pub selection_anchor: Option<Position>,
    pub mouse_drag_anchor: Option<Position>,
    pub save_as: Option<SaveAsView>,
    pub search: Option<SearchView>,
    pub last_search_query: Seq<char>,
    pub should_quit: bool,
    pub quit_warning_countdown: u8,
}

/// The editor: the buffer, the cursor and selection, the clipboard, the
/// undo history, the menus and the popups, and the message of the status
/// line (whose number changes each time a message is set).
pub struct Editor {
    pub doc: Document,
    pub cursor: Position,
    pub offset: Position,
    pub status: String,
    pub status_serial: u64,
    pub active_menu: Option<MenuKind>,
    pub active_menu_index: usize,
    pub preview_mode: bool,
    pub clipboard: String,
    pub undo_stack: Vec<EditorSnapshot>,
    pub redo_stack: Vec<EditorSnapshot>,
    pub selection_anchor: Option<Position>,
    pub mouse_drag_anchor: Option<Position>,
    pub save_as_popup: Option<SaveAsPopupState>,
    pub search_popup: Option<SearchPopupState>,
    pub last_search_query: String,
    pub should_quit: bool,
    pub quit_warning_countdown: u8,
}

/// The snapshots as plain values.
pub open spec fn snapshots_view(s: Seq<EditorSnapshot>) -> Seq<SnapshotView> {
    s.map_values(|x: EditorSnapshot| x@)
}

/// An optional string as plain values.
pub open spec fn opt_string_view(o: Option<String>) -> Option<Seq<char>> {
    match o {
        Some(s) => Some(s@),
        None => None,
    }
}

impl View for Editor {
    type V = EditorView;

    open spec fn view(&self) -> EditorView {
        EditorView {
            lines: self.doc.text(),
            file_path: opt_string_view(self.doc.file_path),
            modified: self.doc.modified,
            cursor: self.cursor,
            offset: self.offset,
            status: self.status@,
            status_serial: self.status_serial,
            active_menu: self.active_menu,
            active_menu_index: self.active_menu_index,
            preview_mode: self.preview_mode,
            clipboard: self.clipboard@,
            undo: snapshots_view(self.undo_stack@),
            redo: snapshots_view(self.redo_stack@),
            selection_anchor: self.selection_anchor,
            mouse_drag_anchor: self.mouse_drag_anchor,
            save_as: match self.save_as_popup {
                Some(p) => Some(p@),
                None => None,
            },
            search: match self.search_popup {
                Some(p) => Some(p@),
                None => None,
            },
            last_search_query: self.last_search_query@,
            should_quit: self.should_quit,
            quit_warning_countdown: self.quit_warning_countdown,
        }
    }
}

/// The number of characters of line `i`, 0 when there is no such line.
pub open spec fn line_len(v: EditorView, i: int) -> int {
    if 0 <= i < v.lines.len() {
        v.lines[i].len() as int
    } else {
        0
    }
}

/// The state the editor keeps between any two calls: at least one line,
/// the cursor on a line and at most at its end, the "Save As" cursor at
/// most at the end of the path, and a menu entry index below the size of
/// any menu.
pub open spec fn wf(v: EditorView) -> bool {
    &&& v.lines.len() >= 1
    &&& v.cursor.y < v.lines.len()
    &&& v.cursor.x <= v.lines[v.cursor.y as int].len()
    &&& v.active_menu_index < 8
    &&& (v.save_as matches Some(p) ==> p.cursor <= p.path.len())
}

/// The number after `n`, counting round.
pub open spec fn next_serial(n: u64) -> u64 {
    if n == u64::MAX {
        0
    } else {
        (n + 1) as u64
    }
}

/// `v` showing the message `msg`.
pub open spec fn with_status(v: EditorView, msg: Seq<char>) -> EditorView {
    EditorView { status: msg, status_serial: next_serial(v.status_serial), ..v }
}

/// `v` with the cursor moved onto the buffer: onto the last line when it is
/// below it, and onto the end of its line when past it.
pub open spec fn clamp_cursor(v: EditorView) -> EditorView {
    let bottom = if v.lines.len() == 0 {
        0
    } else {
        v.lines.len() - 1
    };
    let y = min_int(v.cursor.y as int, bottom);
    let x = min_int(v.cursor.x as int, line_len(v, y));
    EditorView { cursor: Position { x: x as usize, y: y as usize }, ..v }
}

/// `v` without an empty selection (anchor on the cursor).
pub open spec fn normalize_anchor(v: EditorView) -> EditorView {
    if v.selection_anchor == Some(v.cursor) {
        EditorView { selection_anchor: None, ..v }
    } else {
        v
    }
}

/// The selection of `v`, start first.
pub open spec fn selection_of(v: EditorView) -> Option<SelectionRange> {
    spec_normalized_selection(v.selection_anchor, v.cursor)
}

/// The selected text; `None` without a selection or when the selection
/// reaches past the last line.
pub open spec fn selected_text_of(v: EditorView) -> Option<Seq<char>> {
    match selection_of(v) {
        None => None,
        Some(sel) => if sel.end.y < v.lines.len() {
            Some(spec_selected_text(v.lines, sel))
        } else {
            None
        },
    }
}

/// Deletes the selection: the cursor goes to its start, the buffer is
/// modified; says whether there was a selection.
pub open spec fn delete_selection_op(v: EditorView) -> (EditorView, bool) {
    match selection_of(v) {
        None => (v, false),
        Some(sel) => {
            let d = delete_selection_lines(v.lines, sel);
            let lines = if d.len() == 0 {
                seq![Seq::<char>::empty()]
            } else {
                d
            };
            (
                clamp_cursor(
                    EditorView {
                        lines,
                        modified: true,
                        cursor: sel.start,
                        selection_anchor: None,
                        ..v
                    },
                ),
                true,
            )
        },
    }
}

/// The snapshot of `v` that undo would bring back.
pub open spec fn snapshot_of(v: EditorView) -> SnapshotView {
    SnapshotView {
        lines: v.lines,
        cursor: v.cursor,
        offset: v.offset,
        selection_anchor: v.selection_anchor,
        modified: v.modified,
    }
}

/// `v` brought back to snapshot `s` (an empty buffer gets one empty line),
/// the cursor clamped and an empty selection dropped.
pub open spec fn restore_op(v: EditorView, s: SnapshotView) -> EditorView {
    normalize_anchor(
        clamp_cursor(
            EditorView {
                lines: if s.lines.len() == 0 {
                    seq![Seq::<char>::empty()]
                } else {
                    s.lines
                },
                modified: s.modified,
                cursor: s.cursor,
                offset: s.offset,
                selection_anchor: s.selection_anchor,
                mouse_drag_anchor: None,
                ..v
            },
        ),
    )
}

/// Records the state before an edit: pushes its snapshot unless it equals
/// the top of the undo stack, and forgets what could be redone.
pub open spec fn begin_edit_op(v: EditorView) -> EditorView {
    let snap = snapshot_of(v);
    let undo = if v.undo.len() > 0 && v.undo.last() == snap {
        v.undo
    } else {
        v.undo.push(snap)
    };
    EditorView { undo, redo: Seq::empty(), ..v }
}

/// Undo: brings back the top of the undo stack, saving the current state
/// for redo.
pub open spec fn undo_op(v: EditorView) -> EditorView {
    if v.undo.len() == 0 {
        with_status(v, "Nothing to undo."@)
    } else {
        let s = v.undo.last();
        let v1 = EditorView { undo: v.undo.drop_last(), redo: v.redo.push(snapshot_of(v)), ..v };
        with_status(restore_op(v1, s), "Undo."@)
    }
}

/// Redo: brings back the top of the redo stack, saving the current state
/// for undo.
pub open spec fn redo_op(v: EditorView) -> EditorView {
    if v.redo.len() == 0 {
        with_status(v, "Nothing to redo."@)
    } else {
        let s = v.redo.last();
        let v1 = EditorView { redo: v.redo.drop_last(), undo: v.undo.push(snapshot_of(v)), ..v };
        with_status(restore_op(v1, s), "Redo."@)
    }
}

impl Editor {
    /// An editor on `doc`, the cursor at its start.
    pub fn new(doc: Document) -> (res: Editor)
        requires
            doc.text().len() >= 1,
        ensures
            wf(res@),
            res@.lines == doc.text(),
            res@.file_path == opt_string_view(doc.file_path),
            res@.modified == doc.modified,
            res@.cursor == (Position { x: 0, y: 0 }),
            res@.offset == (Position { x: 0, y: 0 }),
            res@.status == "Alt-F/E/S/H menus | Ctrl-S save | Ctrl-Q quit | Shift+Arrows select | F1 help"@,
            res@.status_serial == 0,
            res@.active_menu is None,
            res@.active_menu_index == 0,
            !res@.preview_mode,
            res@.clipboard == Seq::<char>::empty(),
            res@.undo == Seq::<SnapshotView>::empty(),
            res@.redo == Seq::<SnapshotView>::empty(),
            res@.selection_anchor is None,
            res@.mouse_drag_anchor is None,
            res@.save_as is None,
            res@.search is None,
            res@.last_search_query == Seq::<char>::empty(),
            !res@.should_quit,
            res@.quit_warning_countdown == 1,
    {
        let res = Editor {
            doc,
            cursor: Position { x: 0, y: 0 },
            offset: Position { x: 0, y: 0 },
            status: "Alt-F/E/S/H menus | Ctrl-S save | Ctrl-Q quit | Shift+Arrows select | F1 help".to_owned(),
            status_serial: 0,
            active_menu: None,
            active_menu_index: 0,
            preview_mode: false,
            clipboard: String::new(),
            undo_stack: Vec::new(),
            redo_stack: Vec::new(),
            selection_anchor: None,
            mouse_drag_anchor: None,
            save_as_popup: None,
            search_popup: None,
            last_search_query: String::new(),
            should_quit: false,
            quit_warning_countdown: 1,
        };
        assert(res@.undo =~= Seq::<SnapshotView>::empty());
        assert(res@.redo =~= Seq::<SnapshotView>::empty());
        res
    }

    /// Shows the message `msg` on the status line.
    pub fn set_status(&mut self, msg: String)
        ensures
            final(self)@ == with_status(old(self)@, msg@),
    {
        self.status = msg;
        self.status_serial = if self.status_serial == u64::MAX {
            0
        } else {
            self.status_serial + 1
        };
        assert(final(self)@ =~= with_status(old(self)@, msg@));
    }

    /// Moves the cursor onto the buffer.
    pub fn clamp_cursor_to_document(&mut self)
        requires
            old(self)@.lines.len() >= 1,
        ensures
            final(self)@ == clamp_cursor(old(self)@),
    {
        let bottom = self.doc.line_count() - 1;
        let y = if self.cursor.y < bottom {
            self.cursor.y
        } else {
            bottom
        };
        let len = self.doc.line_char_len(y);
        let x = if self.cursor.x < len {
            self.cursor.x
        } else {
            len
        };
        self.cursor = Position { x, y };
        assert(final(self)@ =~= clamp_cursor(old(self)@));
    }

    /// Moves the cursor to the end of its line when it is past it.
    pub fn clamp_cursor_x(&mut self)
        ensures
            final(self)@ == (EditorView {
                cursor: Position {
                    x: min_int(old(self)@.cursor.x as int, line_len(old(self)@, old(self)@.cursor.y as int)) as usize,
                    y: old(self)@.cursor.y,
                },
                ..old(self)@
            }),
    {
        let len = self.doc.line_char_len(self.cursor.y);
        if self.cursor.x > len {
            self.cursor.x = len;
        }
        assert(final(self)@ =~= (EditorView {
            cursor: Position {
                x: min_int(old(self)@.cursor.x as int, line_len(old(self)@, old(self)@.cursor.y as int)) as usize,
                y: old(self)@.cursor.y,
            },
            ..old(self)@
        }));
    }

    /// Drops the selection.
    pub fn clear_selection(&mut self)
        ensures
            final(self)@ == (EditorView { selection_anchor: None, ..old(self)@ }),
    {
        self.selection_anchor = None;
        assert(final(self)@ =~= (EditorView { selection_anchor: None, ..old(self)@ }));
    }

    /// Drops an empty selection (anchor on the cursor).
    pub fn normalize_selection_anchor(&mut self)
        ensures
            final(self)@ == normalize_anchor(old(self)@),
    {
        if self.selection_anchor == Some(self.cursor) {
            self.selection_anchor = None;
        }
        assert(final(self)@ =~= normalize_anchor(old(self)@));
    }

    /// The selection, start first.
    pub fn normalized_selection(&self) -> (res: Option<SelectionRange>)
        ensures
            res == selection_of(self@),
    {
        normalized_selection(self.selection_anchor, self.cursor)
    }

    /// The columns of line `line_idx` (of `line_len` characters) that the
    /// selection covers.
    pub fn selection_range_for_line(&self, line_idx: usize, line_len: usize) -> (res: Option<(usize, usize)>)
        ensures
            match selection_of(self@) {
                None => res is None,
                Some(sel) => match res {
                    None => crate::selection::spec_selection_range_for_line(sel, line_idx as int, line_len as int) is None,
                    Some((s, e)) => crate::selection::spec_selection_range_for_line(sel, line_idx as int, line_len as int)
                        == Some((s as int, e as int)),
                },
            },
    {
        match self.normalized_selection() {
            None => None,
            Some(sel) => crate::selection::selection_range_for_line(sel, line_idx, line_len),
        }
    }

    /// The selected text.
    pub fn selected_text(&self) -> (res: Option<String>)
        ensures
            match res {
                Some(t) => selected_text_of(self@) == Some(t@),
                None => selected_text_of(self@) is None,
            },
    {
        match self.normalized_selection() {
            None => None,
            Some(sel) => {
                if sel.end.y < self.doc.lines.len() {
                    Some(selected_text_in_lines(self.doc.lines.as_slice(), sel))
                } else {
                    None
                }
            },
        }
    }

    /// Deletes the selection; says whether there was one.
    pub fn delete_selection(&mut self) -> (res: bool)
        requires
            old(self)@.lines.len() >= 1,
        ensures
            (final(self)@, res) == delete_selection_op(old(self)@),
    {
        let sel = match self.normalized_selection() {
            Some(sel) => sel,
            None => return false,
        };
        delete_selection_in_lines(&mut self.doc.lines, sel);
        self.doc.modified = true;
        self.cursor = sel.start;
        self.clear_selection();
        self.clamp_cursor_to_document();
        true
    }

    /// The snapshot of the current state.
    pub fn current_snapshot(&self) -> (res: EditorSnapshot)
        ensures
            res@ == snapshot_of(self@),
    {
        EditorSnapshot {
            lines: clone_lines(&self.doc.lines),
            cursor: self.cursor,
            offset: self.offset,
            selection_anchor: self.selection_anchor,
            modified: self.doc.modified,
        }
    }

    /// Brings back `snapshot`.
    pub fn restore_snapshot(&mut self, snapshot: EditorSnapshot)
        ensures
            final(self)@ == restore_op(old(self)@, snapshot@),
    {
        if snapshot.lines.len() == 0 {
            let mut lines: Vec<String> = Vec::new();
            lines.push(String::new());
            self.doc.lines = lines;
            assert(self.doc.text() =~= seq![Seq::<char>::empty()]);
        } else {
            self.doc.lines = snapshot.lines;
        }
        self.doc.modified = snapshot.modified;
        self.cursor = snapshot.cursor;
        self.offset = snapshot.offset;
        self.selection_anchor = snapshot.selection_anchor;
        self.mouse_drag_anchor = None;
        self.clamp_cursor_to_document();
        self.normalize_selection_anchor();
    }

    /// Pushes the current snapshot on the undo stack unless it is already
    /// on top.
    pub fn push_undo_snapshot(&mut self)
        ensures
            ({
                let snap = snapshot_of(old(self)@);
                let undo = if old(self)@.undo.len() > 0 && old(self)@.undo.last() == snap {
                    old(self)@.undo
                } else {
                    old(self)@.undo.push(snap)
                };
                final(self)@ == EditorView { undo, ..old(self)@ }
            }),
    {
        let snapshot = self.current_snapshot();
        let n = self.undo_stack.len();
        if n > 0 {
            let same = self.undo_stack[n - 1] == snapshot;
            if same {
                assert(snapshots_view(self.undo_stack@).last() == self.undo_stack@[n - 1]@);
                assert(final(self)@ =~= old(self)@);
                return ;
            }
        }
        let ghost before = self.undo_stack@;
        self.undo_stack.push(snapshot);
        assert(snapshots_view(self.undo_stack@) =~= snapshots_view(before).push(snapshot@));
        assert(old(self)@.undo.len() > 0 ==> old(self)@.undo.last() == before[n - 1]@);
    }

    /// Records the state before an edit.
    pub fn begin_edit(&mut self)
        ensures
            final(self)@ == begin_edit_op(old(self)@),
    {
        self.push_undo_snapshot();
        self.redo_stack.clear();
        assert(snapshots_view(self.redo_stack@) =~= Seq::<SnapshotView>::empty());
        assert(final(self)@ =~= begin_edit_op(old(self)@));
    }

    /// Undoes the last edit.
    pub fn undo(&mut self)
        ensures
            final(self)@ == undo_op(old(self)@),
    {
        let ghost before = self.undo_stack@;
        let snapshot = match self.undo_stack.pop() {
            Some(s) => s,
            None => {
                self.set_status("Nothing to undo.".to_owned());
                return ;
            },
        };
        assert(snapshots_view(self.undo_stack@) =~= snapshots_view(before).drop_last());
        let current = self.current_snapshot();
        let ghost rbefore = self.redo_stack@;
        self.redo_stack.push(current);
        assert(snapshots_view(self.redo_stack@) =~= snapshots_view(rbefore).push(current@));
        self.restore_snapshot(snapshot);
        self.set_status("Undo.".to_owned());
    }

    /// Redoes the last undone edit.
    pub fn redo(&mut self)
        ensures
            final(self)@ == redo_op(old(self)@),
    {
        let ghost before = self.redo_stack@;
        let snapshot = match self.redo_stack.pop() {
            Some(s) => s,
            None => {
                self.set_status("Nothing to redo.".to_owned());
                return ;
            },
        };
        assert(snapshots_view(self.redo_stack@) =~= snapshots_view(before).drop_last());
        let current = self.current_snapshot();
        let ghost ubefore = self.undo_stack@;
        self.undo_stack.push(current);
        assert(snapshots_view(self.undo_stack@) =~= snapshots_view(ubefore).push(current@));
        self.restore_snapshot(snapshot);
        self.set_status("Redo.".to_owned());
    }
}

/// `v` with the cursor moved to `p`.
pub open spec fn at(v: EditorView, p: Position) -> EditorView {
    EditorView { cursor: p, ..v }
}

/// `v` with the cursor column moved to the end of its line when past it.
pub open spec fn clamp_x(v: EditorView) -> EditorView {
    at(
        v,
        Position {
            x: min_int(v.cursor.x as int, line_len(v, v.cursor.y as int)) as usize,
            y: v.cursor.y,
        },
    )
}

/// One character left, or to the end of the previous line.
pub open spec fn move_left_op(v: EditorView) -> EditorView {
    if v.cursor.x > 0 {
        at(v, Position { x: (v.cursor.x - 1) as usize, y: v.cursor.y })
    } else if v.cursor.y > 0 {
        at(v, Position { x: line_len(v, v.cursor.y - 1) as usize, y: (v.cursor.y - 1) as usize })
    } else {
        v
    }
}

/// One character right, or to the start of the next line.
pub open spec fn move_right_op(v: EditorView) -> EditorView {
    if v.cursor.x < line_len(v, v.cursor.y as int) {
        at(v, Position { x: (v.cursor.x + 1) as usize, y: v.cursor.y })
    } else if v.cursor.y + 1 < v.lines.len() {
        at(v, Position { x: 0, y: (v.cursor.y + 1) as usize })
    } else {
        v
    }
}

/// One line up, the column clamped to the line.
pub open spec fn move_up_op(v: EditorView) -> EditorView {
    if v.cursor.y > 0 {
        clamp_x(at(v, Position { x: v.cursor.x, y: (v.cursor.y - 1) as usize }))
    } else {
        v
    }
}

/// One line down, the column clamped to the line.
pub open spec fn move_down_op(v: EditorView) -> EditorView {
    if v.cursor.y + 1 < v.lines.len() {
        clamp_x(at(v, Position { x: v.cursor.x, y: (v.cursor.y + 1) as usize }))
    } else {
        v
    }
}

/// The number of text rows on a screen of `rows` rows (two bars above, one
/// border and two bars below).
pub open spec fn text_height(rows: u16) -> int {
    if rows >= 5 {
        rows - 5
    } else {
        0
    }
}

/// One screen of lines up.
pub open spec fn page_up_op(v: EditorView, rows: u16) -> EditorView {
    let y = if v.cursor.y >= text_height(rows) {
        v.cursor.y - text_height(rows)
    } else {
        0
    };
    clamp_x(at(v, Position { x: v.cursor.x, y: y as usize }))
}

/// One screen of lines down, stopping at the last line.
pub open spec fn page_down_op(v: EditorView, rows: u16) -> EditorView {
    let bottom = if v.lines.len() >= 1 {
        v.lines.len() - 1
    } else {
        0
    };
    let y = min_int(v.cursor.y + text_height(rows), bottom);
    clamp_x(at(v, Position { x: v.cursor.x, y: y as usize }))
}

/// After the cursor moved from `old_cursor`: extends the selection from
/// there when `extend`, and drops it otherwise.
pub open spec fn selection_after_move(v: EditorView, old_cursor: Position, extend: bool) -> EditorView {
    if extend {
        let v1 = if v.selection_anchor is None {
            EditorView { selection_anchor: Some(old_cursor), ..v }
        } else {
            v
        };
        normalize_anchor(v1)
    } else {
        EditorView { selection_anchor: None, ..v }
    }
}

/// Types `c` at the cursor, in place of the selection.
pub open spec fn insert_char_op(v: EditorView, c: char) -> EditorView {
    let v1 = delete_selection_op(v).0;
    EditorView {
        lines: insert_char_result(v1.lines, v1.cursor, c),
        modified: true,
        cursor: Position { x: (v1.cursor.x + 1) as usize, y: v1.cursor.y },
        ..v1
    }
}

/// Types the characters of `s` one after the other.
pub open spec fn insert_chars_op(v: EditorView, s: Seq<char>) -> EditorView
    decreases s.len(),
{
    if s.len() == 0 {
        v
    } else {
        insert_chars_op(insert_char_op(v, s[0]), s.drop_first())
    }
}

/// The text of the cursor's line before the cursor.
pub open spec fn before_cursor(v: EditorView) -> Seq<char> {
    let line = v.lines[v.cursor.y as int];
    line.take(min_int(v.cursor.x as int, line.len() as int))
}

/// Whether Enter would continue an ordered list item numbered `usize::MAX`
/// (whose successor does not fit in a `usize`).
pub open spec fn enter_overflows(v: EditorView) -> bool {
    let v1 = delete_selection_op(v).0;
    list_number_is_max(before_cursor(v1))
}

/// Enter: the selection goes, the line splits at the cursor, and a list
/// item goes on with its marker (the next number for an ordered list).
pub open spec fn insert_newline_op(v: EditorView) -> EditorView {
    let v1 = delete_selection_op(v).0;
    let cont = spec_list_continuation(before_cursor(v1));
    let v2 = EditorView {
        lines: insert_newline_result(v1.lines, v1.cursor),
        modified: true,
        cursor: Position { x: 0, y: (v1.cursor.y + 1) as usize },
        ..v1
    };
    match cont {
        Some(p) => insert_chars_op(v2, p),
        None => v2,
    }
}

/// Backspace: deletes the selection, or else the character before the
/// cursor (joining lines at column 0).
pub open spec fn backspace_op(v: EditorView) -> EditorView {
    let (v1, deleted) = delete_selection_op(v);
    if deleted {
        v1
    } else {
        match backspace_result(v.lines, v.cursor) {
            None => v,
            Some((t, p)) => EditorView { lines: t, modified: true, cursor: p, ..v },
        }
    }
}

/// Delete: deletes the selection, or else the character under the cursor
/// (joining the next line at the end of a line).
pub open spec fn delete_forward_op(v: EditorView) -> EditorView {
    let (v1, deleted) = delete_selection_op(v);
    if deleted {
        v1
    } else {
        match delete_forward_result(v.lines, v.cursor) {
            None => v,
            Some(t) => EditorView { lines: t, modified: true, ..v },
        }
    }
}

/// Types the characters of `s` at the cursor, a `'\n'` splitting the line.
pub open spec fn insert_text_op(v: EditorView, s: Seq<char>) -> EditorView
    decreases s.len(),
{
    if s.len() == 0 {
        v
    } else {
        let c = s[0];
        let v1 = if c == '\n' {
            EditorView {
                lines: insert_newline_result(v.lines, v.cursor),
                modified: true,
                cursor: Position { x: 0, y: (v.cursor.y + 1) as usize },
                ..v
            }
        } else {
            EditorView {
                lines: insert_char_result(v.lines, v.cursor, c),
                modified: v.modified || v.cursor.y <= v.lines.len(),
                cursor: Position { x: (v.cursor.x + 1) as usize, y: v.cursor.y },
                ..v
            }
        };
        insert_text_op(v1, s.drop_first())
    }
}

/// Quit: with unsaved changes the first request only warns.
pub open spec fn quit_op(v: EditorView) -> EditorView {
    if v.modified && v.quit_warning_countdown > 0 {
        with_status(
            EditorView { quit_warning_countdown: (v.quit_warning_countdown - 1) as u8, ..v },
            "Unsaved changes. Press Ctrl-Q again to force quit."@,
        )
    } else {
        EditorView { should_quit: true, ..v }
    }
}

/// Copy: the selection, or else the cursor's line, goes to the clipboard.
pub open spec fn copy_op(v: EditorView) -> EditorView {
    match selected_text_of(v) {
        Some(t) => with_status(EditorView { clipboard: t, ..v }, "Copied selection."@),
        None => if v.cursor.y < v.lines.len() {
            with_status(
                EditorView { clipboard: v.lines[v.cursor.y as int], ..v },
                "Copied current line."@,
            )
        } else {
            with_status(v, "No line to copy."@)
        },
    }
}

/// Cut: the selection, or else the cursor's line, goes to the clipboard and
/// out of the buffer (the only line is emptied rather than removed).
pub open spec fn cut_op(v: EditorView) -> EditorView {
    match selected_text_of(v) {
        Some(t) => {
            let v1 = EditorView { clipboard: t, ..begin_edit_op(v) };
            with_status(delete_selection_op(v1).0, "Cut selection."@)
        },
        None => if v.lines.len() == 0 {
            with_status(v, "No line to cut."@)
        } else {
            let v1 = begin_edit_op(v);
            let y = v.cursor.y as int;
            let (lines, removed) = if v.lines.len() == 1 {
                (seq![Seq::<char>::empty()], v.lines[0])
            } else {
                (v.lines.remove(y), v.lines[y])
            };
            let new_y = if y >= lines.len() {
                lines.len() - 1
            } else {
                y
            };
            let v2 = EditorView {
                lines,
                clipboard: removed,
                cursor: Position { x: v.cursor.x, y: new_y as usize },
                ..v1
            };
            with_status(EditorView { modified: true, ..clamp_x(v2) }, "Cut current line."@)
        },
    }
}

/// Paste: the clipboard replaces the selection.
pub open spec fn paste_op(v: EditorView) -> EditorView {
    if v.clipboard.len() == 0 {
        with_status(v, "Clipboard is empty."@)
    } else {
        let v1 = delete_selection_op(begin_edit_op(v)).0;
        with_status(insert_text_op(v1, v.clipboard), "Pasted clipboard."@)
    }
}

/// Deleting the selection keeps the state well formed.
pub proof fn lemma_delete_selection_wf(v: EditorView)
    requires
        wf(v),
    ensures
        wf(delete_selection_op(v).0),
        delete_selection_op(v).0.save_as == v.save_as,
        delete_selection_op(v).0.active_menu_index == v.active_menu_index,
{
    match selection_of(v) {
        None => {},
        Some(sel) => {
            let d = delete_selection_lines(v.lines, sel);
            let lines = if d.len() == 0 {
                seq![Seq::<char>::empty()]
            } else {
                d
            };
            assert(lines.len() >= 1);
        },
    }
}

impl Editor {
    /// One character left, extending the selection when `extend`.
    pub fn move_cursor_left_with_selection(&mut self, extend: bool)
        ensures
            final(self)@ == selection_after_move(move_left_op(old(self)@), old(self)@.cursor, extend),
    {
        let old_cursor = self.cursor;
        self.move_cursor_left();
        self.apply_selection_for_move(old_cursor, extend);
    }

    /// One character right, extending the selection when `extend`.
    pub fn move_cursor_right_with_selection(&mut self, extend: bool)
        requires
            wf(old(self)@),
        ensures
            final(self)@ == selection_after_move(move_right_op(old(self)@), old(self)@.cursor, extend),
    {
        let old_cursor = self.cursor;
        self.move_cursor_right();
        self.apply_selection_for_move(old_cursor, extend);
    }

    /// One line up, extending the selection when `extend`.
    pub fn move_cursor_up_with_selection(&mut self, extend: bool)
        ensures
            final(self)@ == selection_after_move(move_up_op(old(self)@), old(self)@.cursor, extend),
    {
        let old_cursor = self.cursor;
        self.move_cursor_up();
        self.apply_selection_for_move(old_cursor, extend);
    }

    /// One line down, extending the selection when `extend`.
    pub fn move_cursor_down_with_selection(&mut self, extend: bool)
        ensures
            final(self)@ == selection_after_move(move_down_op(old(self)@), old(self)@.cursor, extend),
    {
        let old_cursor = self.cursor;
        self.move_cursor_down();
        self.apply_selection_for_move(old_cursor, extend);
    }

    /// One screen up, extending the selection when `extend`.
    pub fn page_up_with_selection(&mut self, rows: u16, extend: bool)
        ensures
            final(self)@ == selection_after_move(page_up_op(old(self)@, rows), old(self)@.cursor, extend),
    {
        let old_cursor = self.cursor;
        self.page_up(rows);
        self.apply_selection_for_move(old_cursor, extend);
    }

    /// One screen down, extending the selection when `extend`.
    pub fn page_down_with_selection(&mut self, rows: u16, extend: bool)
        requires
            wf(old(self)@),
        ensures
            final(self)@ == selection_after_move(page_down_op(old(self)@, rows), old(self)@.cursor, extend),
    {
        let old_cursor = self.cursor;
        self.page_down(rows);
        self.apply_selection_for_move(old_cursor, extend);
    }

    /// To the start of the line, extending the selection when `extend`.
    pub fn home_with_selection(&mut self, extend: bool)
        ensures
            final(self)@ == selection_after_move(
                at(old(self)@, Position { x: 0, y: old(self)@.cursor.y }),
                old(self)@.cursor,
                extend,
            ),
    {
        let old_cursor = self.cursor;
        self.cursor.x = 0;
        self.apply_selection_for_move(old_cursor, extend);
    }

    /// To the end of the line, extending the selection when `extend`.
    pub fn end_with_selection(&mut self, extend: bool)
        ensures
            final(self)@ == selection_after_move(
                at(
                    old(self)@,
                    Position {
                        x: line_len(old(self)@, old(self)@.cursor.y as int) as usize,
                        y: old(self)@.cursor.y,
                    },
                ),
                old(self)@.cursor,
                extend,
            ),
    {
        let old_cursor = self.cursor;
        self.cursor.x = self.doc.line_char_len(self.cursor.y);
        self.apply_selection_for_move(old_cursor, extend);
    }

    /// Extends or drops the selection after a cursor move from `old_cursor`.
    pub fn apply_selection_for_move(&mut self, old_cursor: Position, extend: bool)
        ensures
            final(self)@ == selection_after_move(old(self)@, old_cursor, extend),
    {
        if extend {
            if self.selection_anchor.is_none() {
                self.selection_anchor = Some(old_cursor);
            }
            self.normalize_selection_anchor();
        } else {
            self.clear_selection();
        }
        assert(final(self)@ =~= selection_after_move(old(self)@, old_cursor, extend));
    }

    /// One character left, or to the end of the previous line.
    pub fn move_cursor_left(&mut self)
        ensures
            final(self)@ == move_left_op(old(self)@),
    {
        if self.cursor.x > 0 {
            self.cursor.x -= 1;
            assert(final(self)@ =~= move_left_op(old(self)@));
            return ;
        }
        if self.cursor.y > 0 {
            self.cursor.y -= 1;
            self.cursor.x = self.doc.line_char_len(self.cursor.y);
        }
        assert(final(self)@ =~= move_left_op(old(self)@));
    }

    /// One character right, or to the start of the next line.
    pub fn move_cursor_right(&mut self)
        requires
            wf(old(self)@),
        ensures
            final(self)@ == move_right_op(old(self)@),
    {
        let line_len = self.doc.line_char_len(self.cursor.y);
        if self.cursor.x < line_len {
            self.cursor.x += 1;
            assert(final(self)@ =~= move_right_op(old(self)@));
            return ;
        }
        let n = self.doc.line_count();
        if n > 0 && self.cursor.y < n - 1 {
            self.cursor.y += 1;
            self.cursor.x = 0;
        }
        assert(final(self)@ =~= move_right_op(old(self)@));
    }

    /// One line up.
    pub fn move_cursor_up(&mut self)
        ensures
            final(self)@ == move_up_op(old(self)@),
    {
        if self.cursor.y > 0 {
            self.cursor.y -= 1;
            self.clamp_cursor_x();
        }
        assert(final(self)@ =~= move_up_op(old(self)@));
    }

    /// One line down.
    pub fn move_cursor_down(&mut self)
        ensures
            final(self)@ == move_down_op(old(self)@),
    {
        if self.cursor.y < self.doc.line_count() && self.cursor.y + 1 < self.doc.line_count() {
            self.cursor.y += 1;
            self.clamp_cursor_x();
        }
        assert(final(self)@ =~= move_down_op(old(self)@));
    }

    /// The number of text rows on a screen of `rows` rows.
    pub fn text_area_height(rows: u16) -> (res: usize)
        ensures
            res == text_height(rows),
    {
        rows.saturating_sub(5) as usize
    }

    /// One screen of lines up.
    pub fn page_up(&mut self, rows: u16)
        ensures
            final(self)@ == page_up_op(old(self)@, rows),
    {
        let height = Self::text_area_height(rows);
        self.cursor.y = self.cursor.y.saturating_sub(height);
        self.clamp_cursor_x();
        assert(final(self)@ =~= page_up_op(old(self)@, rows));
    }

    /// One screen of lines down.
    pub fn page_down(&mut self, rows: u16)
        requires
            wf(old(self)@),
        ensures
            final(self)@ == page_down_op(old(self)@, rows),
    {
        let height = Self::text_area_height(rows);
        let bottom = self.doc.line_count() - 1;
        self.cursor.y = if bottom - self.cursor.y <= height {
            bottom
        } else {
            self.cursor.y + height
        };
        self.clamp_cursor_x();
        assert(final(self)@ =~= page_down_op(old(self)@, rows));
    }

    /// Types `c` at the cursor, in place of the selection.
    pub fn insert_char(&mut self, c: char)
        requires
            wf(old(self)@),
        ensures
            final(self)@ == insert_char_op(old(self)@, c),
            wf(final(self)@),
    {
        proof {
            lemma_delete_selection_wf(old(self)@);
        }
        self.delete_selection();
        self.doc.insert_char(self.cursor, c);
        // Called for its contract: the length of the line fits in a `usize`.
        let _len = self.doc.line_char_len(self.cursor.y);
        self.cursor.x += 1;
        assert(final(self)@ =~= insert_char_op(old(self)@, c));
    }

    /// Types the characters of `s`, from `start` on, one after the other.
    pub fn insert_chars(&mut self, s: &Vec<char>, start: usize)
        requires
            wf(old(self)@),
            start <= s@.len(),
        ensures
            final(self)@ == insert_chars_op(old(self)@, s@.skip(start as int)),
            wf(final(self)@),
        decreases s@.len() - start,
    {
        if start >= s.len() {
            assert(s@.skip(start as int) =~= Seq::<char>::empty());
            return ;
        }
        let ghost v0 = self@;
        self.insert_char(s[start]);
        assert(s@.skip(start as int).drop_first() =~= s@.skip(start + 1));
        self.insert_chars(s, start + 1);
    }

    /// The prefix that continues the list item before the cursor.
    pub fn markdown_continuation(&self) -> (res: Option<String>)
        requires
            wf(self@),
            !list_number_is_max(before_cursor(self@)),
        ensures
            match res {
                Some(p) => spec_list_continuation(before_cursor(self@)) == Some(p@),
                None => spec_list_continuation(before_cursor(self@)) is None,
            },
    {
        let line = match self.doc.line(self.cursor.y) {
            Some(l) => l,
            None => return None,
        };
        let cs = chars_of(line.as_str());
        let k = if self.cursor.x < cs.len() {
            self.cursor.x
        } else {
            cs.len()
        };
        let before = crate::text::string_from_chars(cs.as_slice(), 0, k);
        assert(before@ =~= before_cursor(self@));
        markdown_list_continuation(before.as_str())
    }

    /// Enter: splits the line at the cursor, continuing a list item.
    pub fn insert_newline(&mut self)
        requires
            wf(old(self)@),
            !enter_overflows(old(self)@),
        ensures
            final(self)@ == insert_newline_op(old(self)@),
            wf(final(self)@),
    {
        proof {
            lemma_delete_selection_wf(old(self)@);
        }
        self.delete_selection();
        let continuation = self.markdown_continuation();
        self.doc.insert_newline(self.cursor);
        // Called for its contract: the line count fits in a `usize`.
        let _n = self.doc.line_count();
        self.cursor.y += 1;
        self.cursor.x = 0;
        match continuation {
            Some(prefix) => {
                let cs = chars_of(prefix.as_str());
                assert(cs@.skip(0) =~= cs@);
                self.insert_chars(&cs, 0);
            },
            None => {},
        }
    }

    /// Backspace.
    pub fn backspace(&mut self)
        requires
            wf(old(self)@),
        ensures
            final(self)@ == backspace_op(old(self)@),
            wf(final(self)@),
    {
        proof {
            lemma_delete_selection_wf(old(self)@);
        }
        if self.delete_selection() {
            return ;
        }
        match self.doc.backspace(self.cursor) {
            Some(pos) => {
                self.cursor = pos;
            },
            None => {},
        }
        assert(final(self)@ =~= backspace_op(old(self)@));
    }

    /// Delete.
    pub fn delete_forward(&mut self)
        requires
            wf(old(self)@),
        ensures
            final(self)@ == delete_forward_op(old(self)@),
            wf(final(self)@),
    {
        proof {
            lemma_delete_selection_wf(old(self)@);
        }
        if self.delete_selection() {
            return ;
        }
        self.doc.delete_forward(self.cursor);
        assert(final(self)@ =~= delete_forward_op(old(self)@));
    }

    /// Types the characters of `text` (from `start` on) at the cursor.
    fn insert_text_from(&mut self, text: &Vec<char>, start: usize)
        requires
            wf(old(self)@),
            start <= text@.len(),
        ensures
            final(self)@ == insert_text_op(old(self)@, text@.skip(start as int)),
            wf(final(self)@),
        decreases text@.len() - start,
    {
        if start >= text.len() {
            assert(text@.skip(start as int) =~= Seq::<char>::empty());
            return ;
        }
        let ch = text[start];
        if ch == '\n' {
            self.doc.insert_newline(self.cursor);
            // Called for its contract: the line count fits in a `usize`.
            let _n = self.doc.line_count();
            self.cursor.y += 1;
            self.cursor.x = 0;
        } else {
            self.doc.insert_char(self.cursor, ch);
            // Called for its contract: the length of the line fits in a `usize`.
            let _len = self.doc.line_char_len(self.cursor.y);
            self.cursor.x += 1;
        }
        assert(text@.skip(start as int).drop_first() =~= text@.skip(start + 1));
        self.insert_text_from(text, start + 1);
    }

    /// Types `text` at the cursor, a `'\n'` splitting the line.
    pub fn insert_text_at_cursor(&mut self, text: &str)
        requires
            wf(old(self)@),
        ensures
            final(self)@ == insert_text_op(old(self)@, text@),
            wf(final(self)@),
    {
        let cs = chars_of(text);
        assert(cs@.skip(0) =~= cs@);
        self.insert_text_from(&cs, 0);
    }

    /// Quit, warning once about unsaved changes.
    pub fn quit(&mut self)
        ensures
            final(self)@ == quit_op(old(self)@),
    {
        if self.doc.modified && self.quit_warning_countdown > 0 {
            self.set_status("Unsaved changes. Press Ctrl-Q again to force quit.".to_owned());
            self.quit_warning_countdown -= 1;
            assert(final(self)@ =~= quit_op(old(self)@));
            return ;
        }
        self.should_quit = true;
        assert(final(self)@ =~= quit_op(old(self)@));
    }

    /// Copy.
    pub fn copy_current_line(&mut self)
        ensures
            final(self)@ == copy_op(old(self)@),
    {
        match self.selected_text() {
            Some(selected) => {
                self.clipboard = selected;
                self.set_status("Copied selection.".to_owned());
                return ;
            },
            None => {},
        }
        let line = match self.doc.line(self.cursor.y) {
            Some(l) => l.clone(),
            None => {
                self.set_status("No line to copy.".to_owned());
                return ;
            },
        };
        self.clipboard = line;
        self.set_status("Copied current line.".to_owned());
    }

    /// Cut.
    pub fn cut_current_line(&mut self)
        requires
            wf(old(self)@),
        ensures
            final(self)@ == cut_op(old(self)@),
            wf(final(self)@),
    {
        match self.selected_text() {
            Some(selected) => {
                self.begin_edit();
                self.clipboard = selected;
                proof {
                    lemma_delete_selection_wf(self@);
                }
                self.delete_selection();
                self.set_status("Cut selection.".to_owned());
                return ;
            },
            None => {},
        }
        if self.doc.line_count() == 0 {
            self.set_status("No line to cut.".to_owned());
            return ;
        }
        self.begin_edit();
        let removed = if self.doc.line_count() == 1 {
            let value = self.doc.lines[0].clone();
            self.doc.lines.set(0, String::new());
            assert(self.doc.text() =~= seq![Seq::<char>::empty()]);
            value
        } else {
            let r = self.doc.lines.remove(self.cursor.y);
            assert(self.doc.text() =~= old(self)@.lines.remove(old(self)@.cursor.y as int));
            r
        };
        self.clipboard = removed;
        if self.cursor.y >= self.doc.line_count() {
            self.cursor.y = self.doc.line_count() - 1;
        }
        self.clamp_cursor_x();
        self.doc.modified = true;
        self.set_status("Cut current line.".to_owned());
    }

    /// Paste.
    pub fn paste_clipboard(&mut self)
        requires
            wf(old(self)@),
        ensures
            final(self)@ == paste_op(old(self)@),
            wf(final(self)@),
    {
        if self.clipboard.as_str().is_empty() {
            self.set_status("Clipboard is empty.".to_owned());
            return ;
        }
        self.begin_edit();
        proof {
            lemma_delete_selection_wf(self@);
        }
        self.delete_selection();
        let text = self.clipboard.clone();
        self.insert_text_at_cursor(text.as_str());
        self.set_status("Pasted clipboard.".to_owned());
    }
}

/// Undo right after an edit gives back the buffer, the cursor, the scroll
/// position and the modified flag from before the edit, whatever the edit
/// did (an edit leaves the undo history as `begin_edit` made it); redo is
/// then possible.
pub proof fn law_undo_restores_before_edit(v: EditorView, w: EditorView)
    requires
        wf(v),
        w.undo == begin_edit_op(v).undo,
    ensures
        undo_op(w).lines == v.lines,
        undo_op(w).cursor == v.cursor,
        undo_op(w).offset == v.offset,
        undo_op(w).modified == v.modified,
        undo_op(w).redo.len() > 0,
{
    let snap = snapshot_of(v);
    if v.undo.len() > 0 && v.undo.last() == snap {
    } else {
        assert(v.undo.push(snap).last() == snap);
    }
}

/// Redo right after undo gives back the buffer, the cursor, the scroll
/// position and the modified flag from before the undo, and the undo
/// history as it was.
pub proof fn law_redo_after_undo(v: EditorView)
    requires
        wf(v),
        v.undo.len() > 0,
    ensures
        redo_op(undo_op(v)).lines == v.lines,
        redo_op(undo_op(v)).cursor == v.cursor,
        redo_op(undo_op(v)).offset == v.offset,
        redo_op(undo_op(v)).modified == v.modified,
        redo_op(undo_op(v)).redo == v.redo,
{
    let u = undo_op(v);
    assert(u.redo.last() == snapshot_of(v));
    assert(u.redo.drop_last() =~= v.redo);
}

/// With unsaved changes the first quit request only warns; the second one
/// quits.
pub proof fn law_quit_twice_quits(v: EditorView)
    requires
        v.modified,
        v.quit_warning_countdown == 1,
        !v.should_quit,
    ensures
        !quit_op(v).should_quit,
        quit_op(quit_op(v)).should_quit,
{
}

/// Backspace right after typing a character (with nothing selected) gives
/// back the buffer and the cursor.
pub proof fn law_backspace_after_typing(v: EditorView, c: char)
    requires
        wf(v),
        v.selection_anchor is None,
        v.cursor.x < usize::MAX,
    ensures
        backspace_op(insert_char_op(v, c)).lines == v.lines,
        backspace_op(insert_char_op(v, c)).cursor == v.cursor,
{
    let w = insert_char_op(v, c);
    assert(delete_selection_op(v).0 == v);
    crate::document::law_backspace_undoes_insert(v.lines, v.cursor, c);
    assert(delete_selection_op(w).0 == w);
}

/// The last line of the split of `x` is no longer than `x`, and text added
/// after `x` adds lines, never removes them.
proof fn lemma_split_sizes(x: Seq<char>, y: Seq<char>)
    ensures
        crate::document::split_lines(x).len() >= 1,
        crate::document::split_lines(x).last().len() <= x.len(),
        crate::document::split_lines(x).len() <= crate::document::split_lines(x + y).len(),
        crate::document::split_lines(x).len() <= x.len() + 1,
    decreases x.len() + y.len(),
{
    crate::document::lemma_split_lines_nonempty(x);
    if y.len() > 0 {
        lemma_split_sizes(x, y.drop_last());
        assert((x + y).drop_last() =~= x + y.drop_last());
        crate::document::lemma_split_lines_nonempty(x + y.drop_last());
    } else {
        assert(x + y =~= x);
        if x.len() > 0 {
            lemma_split_sizes(x.drop_last(), Seq::empty());
            crate::document::lemma_split_lines_nonempty(x.drop_last());
        }
    }
}

/// Typing the text `s` at the end of `ad`, in a line `ad + b` that follows
/// the lines `pre` (`ad` itself may hold line breaks), splits the text at
/// its line breaks and leaves the cursor at the end of what was typed.
#[verifier::spinoff_prover]
#[verifier::rlimit(60)]
proof fn lemma_insert_text(
    v: EditorView,
    pre: Seq<Seq<char>>,
    post: Seq<Seq<char>>,
    ad: Seq<char>,
    b: Seq<char>,
    s: Seq<char>,
)
    requires
        ({
            let p = crate::document::split_lines(ad);
            &&& v.lines == pre + p.drop_last() + seq![p.last() + b] + post
            &&& v.cursor == Position { x: p.last().len() as usize, y: (pre.len() + p.len() - 1) as usize }
        }),
        pre.len() + crate::document::split_lines(ad + s).len() + post.len() <= usize::MAX,
        (ad + s).len() < usize::MAX,
    ensures
        ({
            let q = crate::document::split_lines(ad + s);
            let w = insert_text_op(v, s);
            &&& w.lines == pre + q.drop_last() + seq![q.last() + b] + post
            &&& w.cursor == Position { x: q.last().len() as usize, y: (pre.len() + q.len() - 1) as usize }
        }),
    decreases s.len(),
{
    let p = crate::document::split_lines(ad);
    lemma_split_sizes(ad, s);
    if s.len() == 0 {
        assert(ad + s =~= ad);
    } else {
        let c = s[0];
        let ad1 = ad.push(c);
        let s1 = s.drop_first();
        assert(ad1 + s1 =~= ad + s);
        assert(ad1.drop_last() =~= ad);
        let p1 = crate::document::split_lines(ad1);
        lemma_split_sizes(ad1, s1);
        lemma_split_sizes(ad, seq![c]);
        assert(ad + seq![c] =~= ad1);
        let y = pre.len() + p.len() - 1;
        assert(v.lines[y] == p.last() + b);
        let line = p.last() + b;
        let v1 = if c == '\n' {
            EditorView {
                lines: insert_newline_result(v.lines, v.cursor),
                modified: true,
                cursor: Position { x: 0, y: (v.cursor.y + 1) as usize },
                ..v
            }
        } else {
            EditorView {
                lines: insert_char_result(v.lines, v.cursor, c),
                modified: v.modified || v.cursor.y <= v.lines.len(),
                cursor: Position { x: (v.cursor.x + 1) as usize, y: v.cursor.y },
                ..v
            }
        };
        assert(insert_text_op(v, s) == insert_text_op(v1, s1));
        if c == '\n' {
            assert(p1 == p.push(Seq::<char>::empty()));
            assert(line.take(p.last().len() as int) =~= p.last());
            assert(line.skip(p.last().len() as int) =~= b);
            assert(v1.lines =~= pre + p1.drop_last() + seq![p1.last() + b] + post);
        } else {
            assert(p1 == p.update(p.len() - 1, p.last().push(c)));
            assert(crate::document::insert_at(line, p.last().len() as int, c) =~= p.last().push(c) + b);
            assert(v1.lines =~= pre + p1.drop_last() + seq![p1.last() + b] + post);
        }
        lemma_insert_text(v1, pre, post, ad1, b, s1);
    }
}

/// Cutting a selection and pasting it right away gives back the buffer,
/// the cursor at the end of the selection: the clipboard holds exactly the
/// text that the cut took out (for a selection within the buffer, in lines
/// without line breaks, of a size that fits in memory).
#[verifier::spinoff_prover]
#[verifier::rlimit(60)]
pub proof fn law_paste_after_cut(v: EditorView)
    requires
        wf(v),
        crate::document::no_newlines(v.lines),
        v.lines.len() <= usize::MAX,
        crate::document::join_lines(v.lines).len() < usize::MAX,
        selection_of(v) is Some,
        v.selection_anchor matches Some(a) && a.y < v.lines.len() && a.x <= v.lines[a.y as int].len(),
    ensures
        paste_op(cut_op(v)).lines == v.lines,
        paste_op(cut_op(v)).cursor == selection_of(v)->0.end,
{
    let t = v.lines;
    let sel = selection_of(v)->0;
    let sy = sel.start.y as int;
    let ey = sel.end.y as int;
    let sx = sel.start.x as int;
    let ex = sel.end.x as int;
    let head = t[sy].take(sx);
    let tail = t[ey].skip(ex);
    let pre = t.take(sy);
    let post = t.skip(ey + 1);
    let g = t.subrange(sy, ey + 1);
    let selected = crate::selection::spec_selected_text(t, sel);
    crate::selection::law_delete_removes_selected_text(t, sel);
    assert(selected_text_of(v) == Some(selected));
    // The cut.
    let v1 = EditorView { clipboard: selected, ..begin_edit_op(v) };
    assert(selection_of(v1) == Some(sel));
    let d = crate::selection::delete_selection_lines(t, sel);
    assert(d.len() >= 1);
    let w0 = delete_selection_op(v1).0;
    assert(w0.lines == d);
    assert(w0.cursor == sel.start);
    assert(w0.selection_anchor is None);
    let w = cut_op(v);
    assert(w == with_status(w0, "Cut selection."@));
    // The selected text is not empty.
    if sy == ey {
        assert(selected.len() == ex - sx);
    } else {
        let sl = seq![crate::document::slice_of(t[sy], sx, t[sy].len() as int)]
            + crate::selection::middle_lines(t, sel) + seq![
            crate::document::slice_of(t[ey], 0, ex),
        ];
        assert(sl.len() >= 2);
        assert(sl =~= sl.drop_last().push(sl.last()));
        assert(selected == crate::document::join_lines(sl.drop_last()).push('\n') + sl.last());
    }
    assert(selected.len() > 0);
    // The paste.
    let u0 = begin_edit_op(w);
    assert(delete_selection_op(u0).0 == u0);
    // The group of lines the selection spans holds no line break, so it is
    // the split of its joined text.
    assert(g.len() >= 1);
    assert(crate::document::no_newlines(g)) by {
        assert forall|i: int, k: int| 0 <= i < g.len() && 0 <= k < g[i].len() implies #[trigger] g[i][k]
            != '\n' by {
            assert(g[i] == t[sy + i]);
        }
    }
    crate::document::law_split_join(g);
    assert(forall|k: int| 0 <= k < head.len() ==> head[k] == t[sy][k]);
    assert(forall|k: int| 0 <= k < tail.len() ==> tail[k] == t[ey][ex + k]);
    assert(crate::document::no_newlines(seq![head])) by {
        assert forall|i: int, k: int| 0 <= i < 1 && 0 <= k < seq![head][i].len() implies #[trigger] seq![
            head,
        ][i][k] != '\n' by {
            assert(seq![head][i] == head);
            assert(head[k] == t[sy][k]);
        }
    }
    crate::document::law_split_join(seq![head]);
    assert(crate::document::join_lines(seq![head]) == head);
    let hs = head + selected;
    assert(head + selected + tail == hs + tail);
    crate::document::lemma_split_append(hs, tail);
    let q = crate::document::split_lines(hs);
    lemma_split_sizes(hs, tail);
    assert(q.len() == g.len());
    assert(q.drop_last() + seq![q.last() + tail] =~= g) by {
        assert(crate::document::split_lines(hs + tail) == g);
    }
    // Sizes fit: the typed text is part of the buffer's text.
    crate::selection::lemma_join_group_len(pre, g, post);
    assert(t =~= pre + g + post);
    assert(u0.lines == pre + crate::document::split_lines(head).drop_last() + seq![
        crate::document::split_lines(head).last() + tail,
    ] + post) by {
        assert(crate::document::split_lines(head) == seq![head]);
        assert(seq![head].drop_last() =~= Seq::<Seq<char>>::empty());
    }
    lemma_insert_text(u0, pre, post, head, tail, selected);
    let r = insert_text_op(u0, selected);
    assert(r.lines =~= t);
    assert(paste_op(w) == with_status(r, "Pasted clipboard."@));
}

/// Copying with a selection puts exactly the selected text on the
/// clipboard: the buffer's text (its lines joined with line breaks) from the
/// selection's start to its end. The buffer, the cursor and the selection
/// stay as they were.
pub proof fn law_copy_takes_the_selection(v: EditorView)
    requires
        wf(v),
        selection_of(v) is Some,
        v.selection_anchor matches Some(a) && a.y < v.lines.len() && a.x <= v.lines[a.y as int].len(),
    ensures
        ({
            let sel = selection_of(v)->0;
            let w = copy_op(v);
            &&& w.clipboard == crate::document::join_lines(v.lines).subrange(
                crate::selection::text_offset(v.lines, sel.start),
                crate::selection::text_offset(v.lines, sel.end),
            )
            &&& w.status == "Copied selection."@
            &&& w.lines == v.lines
            &&& w.cursor == v.cursor
            &&& w.selection_anchor == v.selection_anchor
        }),
{
    let sel = selection_of(v)->0;
    crate::selection::law_delete_selection_in_text(v.lines, sel);
}

} // verus!
