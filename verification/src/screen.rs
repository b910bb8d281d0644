//! What the screen shows, computed from the editor's state and the screen
//! size: the popups, the cursor's cell, the bars, the dropdown, the text
//! rows with their markdown looks and the preview rows. Drawing them with
//! colours is left to the caller.
use vstd::prelude::*;

use crate::document::{min_int, shown_file_name};
use crate::editor::{text_height, Editor, SaveAsView, SearchPopupField, SearchPopupMode, SearchView};
use crate::layout::sat_sub;
use crate::markdown::{decimal, decimal_string};
use crate::menu::{spec_menu_by_index, spec_menu_labels, spec_menu_title, MenuKind, MenuRect};
use crate::text::{chars_of, push_str};
use crate::textfmt::{clip, pad_or_clip_to_char_width, slash_path, spaces};

verus! {

/// What a line of a popup is.
#[derive(Clone, Copy, PartialEq, Eq, Debug, Structural)]
pub enum PopupLineKind {
    /// A label over an input box.
    Label,
    /// The input box that takes typing.
    Field,
    /// An input box whose whole text is selected.
    SelectedField,
    /// An input box that does not take typing.
    InactiveField,
    /// An empty line.
    Blank,
    /// The line that lists the keys.
    Hint,
}

/// A rectangle of the screen, in character cells.
#[derive(Clone, Copy, PartialEq, Eq, Debug, Structural)]
pub struct PopupRect {
    pub x: u16,
    pub y: u16,
    pub width: u16,
    pub height: u16,
}

/// One line inside a popup's border.
pub struct PopupLine {
    pub text: String,
    pub kind: PopupLineKind,
}

/// A popup as drawn: its rectangle (border included), its title, the lines
/// inside the border, and the cell of the text cursor.
pub struct PopupRender {
    pub rect: PopupRect,
    pub title: String,
    pub lines: Vec<PopupLine>,
    pub cursor: (u16, u16),
}

/// A popup as plain values.
pub struct PopupRenderView {
    pub rect: PopupRect,
    pub title: Seq<char>,
    pub lines: Seq<(Seq<char>, PopupLineKind)>,
    pub cursor: (u16, u16),
}

impl View for PopupRender {
    type V = PopupRenderView;

    open spec fn view(&self) -> PopupRenderView {
        PopupRenderView {
            rect: self.rect,
            title: self.title@,
            lines: self.lines@.map_values(|l: PopupLine| (l.text@, l.kind)),
            cursor: self.cursor,
        }
    }
}

/// `s` clipped or padded with spaces to exactly `w` characters.
pub open spec fn padded(s: Seq<char>, w: int) -> Seq<char> {
    clip(s, w) + spaces((w - clip(s, w).len()) as nat)
}

/// `lines` cut to `ih` lines, or completed with blank lines of width `iw`.
pub open spec fn fit_lines(lines: Seq<(Seq<char>, PopupLineKind)>, ih: int, iw: int) -> Seq<
    (Seq<char>, PopupLineKind),
> {
    if lines.len() < ih {
        lines + Seq::new(
            (ih - lines.len()) as nat,
            |k: int| (padded(Seq::empty(), iw), PopupLineKind::Blank),
        )
    } else {
        lines.take(ih)
    }
}

/// The rectangle of a popup centred on a `cols` by `rows` screen: as wide
/// as `want_w` (but at least `min_w`, and 4 columns narrower than the
/// screen when it can), as high as `want_h` (but at least 6, and 2 rows
/// lower than the screen when it can); `None` when the screen is narrower
/// than `min_w`, lower than 8 rows, or cannot hold it.
pub open spec fn popup_rect(cols: int, rows: int, min_w: int, want_w: int, want_h: int) -> Option<
    PopupRect,
> {
    let width = if min_int(want_w, sat_sub(cols, 4)) > min_w {
        min_int(want_w, sat_sub(cols, 4))
    } else {
        min_w
    };
    let height = if min_int(want_h, sat_sub(rows, 2)) > 6 {
        min_int(want_h, sat_sub(rows, 2))
    } else {
        6
    };
    if cols < min_w || rows < 8 || width >= cols || height >= rows {
        None
    } else {
        Some(
            PopupRect {
                x: ((cols - width) / 2) as u16,
                y: ((rows - height) / 2) as u16,
                width: width as u16,
                height: height as u16,
            },
        )
    }
}

/// The "Save As" popup `p` on a `cols` by `rows` screen.
pub open spec fn save_as_render(p: SaveAsView, cols: int, rows: int) -> Option<PopupRenderView> {
    match popup_rect(cols, rows, 28, 72, 7) {
        None => None,
        Some(r) => {
            let iw = r.width - 2;
            let kind = if p.select_all && p.path.len() > 0 {
                PopupLineKind::SelectedField
            } else {
                PopupLineKind::Field
            };
            let lines = seq![
                (padded(" Path:"@, iw), PopupLineKind::Label),
                (padded(p.path, iw), kind),
                (padded(" Enter: save  Ctrl+A: select all  Esc: cancel"@, iw), PopupLineKind::Hint),
            ];
            Some(
                PopupRenderView {
                    rect: r,
                    title: " Save As "@,
                    lines: fit_lines(lines, r.height - 2, iw),
                    cursor: ((r.x + 1 + min_int(p.cursor as int, iw - 1)) as u16, (r.y + 2) as u16),
                },
            )
        },
    }
}

/// The search popup `p` on a `cols` by `rows` screen.
pub open spec fn search_render(p: SearchView, cols: int, rows: int) -> Option<PopupRenderView> {
    let find_mode = p.mode == SearchPopupMode::Find;
    let want_w = if find_mode {
        56
    } else {
        66
    };
    let want_h = if find_mode {
        7
    } else {
        9
    };
    match popup_rect(cols, rows, 24, want_w, want_h) {
        None => None,
        Some(r) => {
            let iw = r.width - 2;
            let ih = r.height - 2;
            if find_mode {
                let lines = seq![
                    (padded(" Find:"@, iw), PopupLineKind::Label),
                    (padded(p.find, iw), PopupLineKind::Field),
                    (padded(Seq::empty(), iw), PopupLineKind::Blank),
                    (padded(" Enter: find next   Esc: cancel"@, iw), PopupLineKind::Hint),
                ];
                Some(
                    PopupRenderView {
                        rect: r,
                        title: " Find "@,
                        lines: fit_lines(lines, ih, iw),
                        cursor: (
                            (r.x + 1 + min_int(p.find.len() as int, iw - 1)) as u16,
                            (r.y + 2) as u16,
                        ),
                    },
                )
            } else {
                let find_active = p.active_field == SearchPopupField::Find;
                let find_kind = if find_active {
                    PopupLineKind::Field
                } else {
                    PopupLineKind::InactiveField
                };
                let replace_kind = if find_active {
                    PopupLineKind::InactiveField
                } else {
                    PopupLineKind::Field
                };
                let lines = seq![
                    (padded(" Find:"@, iw), PopupLineKind::Label),
                    (padded(p.find, iw), find_kind),
                    (padded(" Replace:"@, iw), PopupLineKind::Label),
                    (padded(p.replace, iw), replace_kind),
                    (padded(Seq::empty(), iw), PopupLineKind::Blank),
                    (padded(" Tab: next field   Enter: apply   Esc: cancel"@, iw), PopupLineKind::Hint),
                ];
                let active_len = if find_active {
                    p.find.len()
                } else {
                    p.replace.len()
                };
                let row_offset = if find_active {
                    2int
                } else {
                    4int
                };
                Some(
                    PopupRenderView {
                        rect: r,
                        title: " Replace "@,
                        lines: fit_lines(lines, ih, iw),
                        cursor: (
                            (r.x + 1 + min_int(active_len as int, iw - 1)) as u16,
                            (r.y + row_offset) as u16,
                        ),
                    },
                )
            }
        },
    }
}

/// The rectangle of a popup centred on a `cols` by `rows` screen.
pub fn popup_rect_exec(cols: u16, rows: u16, min_w: usize, want_w: usize, want_h: usize) -> (res:
    Option<PopupRect>)
    requires
        min_w >= 4,
    ensures
        res == popup_rect(cols as int, rows as int, min_w as int, want_w as int, want_h as int),
{
    let cols = cols as usize;
    let rows = rows as usize;
    if cols < min_w || rows < 8 {
        return None;
    }
    let max_width = cols.saturating_sub(4);
    let w0 = if want_w < max_width {
        want_w
    } else {
        max_width
    };
    let width = if w0 > min_w {
        w0
    } else {
        min_w
    };
    let max_height = rows.saturating_sub(2);
    let h0 = if want_h < max_height {
        want_h
    } else {
        max_height
    };
    let height = if h0 > 6 {
        h0
    } else {
        6
    };
    if width >= cols || height >= rows {
        return None;
    }
    Some(
        PopupRect {
            x: ((cols - width) / 2) as u16,
            y: ((rows - height) / 2) as u16,
            width: width as u16,
            height: height as u16,
        },
    )
}

/// Appends the line `text`, padded or clipped to `iw`, of kind `kind`.
fn push_line(lines: &mut Vec<PopupLine>, text: &str, iw: usize, kind: PopupLineKind)
    ensures
        final(lines)@.map_values(|l: PopupLine| (l.text@, l.kind)) == old(lines)@.map_values(
            |l: PopupLine| (l.text@, l.kind),
        ).push((padded(text@, iw as int), kind)),
{
    let ghost before = lines@;
    lines.push(PopupLine { text: pad_or_clip_to_char_width(text, iw), kind });
    assert(lines@.map_values(|l: PopupLine| (l.text@, l.kind)) =~= before.map_values(
        |l: PopupLine| (l.text@, l.kind),
    ).push((padded(text@, iw as int), kind)));
}

/// Completes `lines` with blank lines, or cuts them, to `ih` lines.
fn fit_lines_exec(lines: &mut Vec<PopupLine>, ih: usize, iw: usize)
    ensures
        final(lines)@.map_values(|l: PopupLine| (l.text@, l.kind)) == fit_lines(
            old(lines)@.map_values(|l: PopupLine| (l.text@, l.kind)),
            ih as int,
            iw as int,
        ),
{
    let ghost start = old(lines)@.map_values(|l: PopupLine| (l.text@, l.kind));
    let ghost n0 = old(lines)@.len();
    if lines.len() >= ih {
        lines.truncate(ih);
        assert(lines@.map_values(|l: PopupLine| (l.text@, l.kind)) =~= start.take(ih as int));
        return ;
    }
    while lines.len() < ih
        invariant
            n0 <= lines@.len() <= ih,
            n0 < ih,
            start.len() == n0,
            lines@.map_values(|l: PopupLine| (l.text@, l.kind)) == start + Seq::new(
                (lines@.len() - n0) as nat,
                |k: int| (padded(Seq::empty(), iw as int), PopupLineKind::Blank),
            ),
        decreases ih - lines@.len(),
    {
        let ghost before = lines@.len();
        push_line(lines, "", iw, PopupLineKind::Blank);
        proof {
            reveal_strlit("");
        }
        assert(lines@.map_values(|l: PopupLine| (l.text@, l.kind)) =~= start + Seq::new(
            (lines@.len() - n0) as nat,
            |k: int| (padded(Seq::empty(), iw as int), PopupLineKind::Blank),
        ));
    }
}

impl Editor {
    /// The "Save As" popup as drawn on a `cols` by `rows` screen; `None`
    /// when it is closed or does not fit.
    pub fn build_save_as_popup_render(&self, cols: u16, rows: u16) -> (res: Option<PopupRender>)
        ensures
            match self@.save_as {
                None => res is None,
                Some(p) => match save_as_render(p, cols as int, rows as int) {
                    None => res is None,
                    Some(r) => res matches Some(x) && x@ == r,
                },
            },
    {
        let popup = match &self.save_as_popup {
            None => return None,
            Some(p) => p,
        };
        let rect = match popup_rect_exec(cols, rows, 28, 72, 7) {
            None => return None,
            Some(r) => r,
        };
        let iw = (rect.width as usize) - 2;
        let ih = (rect.height as usize) - 2;
        let kind = if popup.select_all && !popup.path_input.as_str().is_empty() {
            PopupLineKind::SelectedField
        } else {
            PopupLineKind::Field
        };
        let mut lines: Vec<PopupLine> = Vec::new();
        push_line(&mut lines, " Path:", iw, PopupLineKind::Label);
        push_line(&mut lines, popup.path_input.as_str(), iw, kind);
        push_line(&mut lines, " Enter: save  Ctrl+A: select all  Esc: cancel", iw, PopupLineKind::Hint);
        fit_lines_exec(&mut lines, ih, iw);
        let shown = if popup.cursor < iw - 1 {
            popup.cursor
        } else {
            iw - 1
        };
        let cursor_x = rect.x + 1 + (shown as u16);
        let cursor_y = rect.y + 2;
        let res = PopupRender { rect, title: " Save As ".to_owned(), lines, cursor: (cursor_x, cursor_y) };
        proof {
            let p = self@.save_as->0;
            let r = save_as_render(p, cols as int, rows as int)->0;
            assert(res@.lines =~= r.lines);
            assert(res@ == r);
        }
        Some(res)
    }

    /// The search popup as drawn on a `cols` by `rows` screen; `None` when
    /// it is closed or does not fit.
    pub fn build_search_popup_render(&self, cols: u16, rows: u16) -> (res: Option<PopupRender>)
        ensures
            match self@.search {
                None => res is None,
                Some(p) => match search_render(p, cols as int, rows as int) {
                    None => res is None,
                    Some(r) => res matches Some(x) && x@ == r,
                },
            },
    {
        let popup = match &self.search_popup {
            None => return None,
            Some(p) => p,
        };
        let find_mode = popup.mode == SearchPopupMode::Find;
        let rect = match popup_rect_exec(
            cols,
            rows,
            24,
            if find_mode {
                56
            } else {
                66
            },
            if find_mode {
                7
            } else {
                9
            },
        ) {
            None => return None,
            Some(r) => r,
        };
        let iw = (rect.width as usize) - 2;
        let ih = (rect.height as usize) - 2;
        let mut lines: Vec<PopupLine> = Vec::new();
        if find_mode {
            push_line(&mut lines, " Find:", iw, PopupLineKind::Label);
            push_line(&mut lines, popup.find_input.as_str(), iw, PopupLineKind::Field);
            push_line(&mut lines, "", iw, PopupLineKind::Blank);
            push_line(&mut lines, " Enter: find next   Esc: cancel", iw, PopupLineKind::Hint);
            fit_lines_exec(&mut lines, ih, iw);
            let n = chars_of(popup.find_input.as_str()).len();
            let shown = if n < iw - 1 {
                n
            } else {
                iw - 1
            };
            let res = PopupRender {
                rect,
                title: " Find ".to_owned(),
                lines,
                cursor: (rect.x + 1 + (shown as u16), rect.y + 2),
            };
            proof {
                reveal_strlit("");
                let r = search_render(self@.search->0, cols as int, rows as int)->0;
                assert(res@.lines =~= r.lines);
                assert(res@ == r);
            }
            return Some(res);
        }
        let find_active = popup.active_field == SearchPopupField::Find;
        let (find_kind, replace_kind) = if find_active {
            (PopupLineKind::Field, PopupLineKind::InactiveField)
        } else {
            (PopupLineKind::InactiveField, PopupLineKind::Field)
        };
        push_line(&mut lines, " Find:", iw, PopupLineKind::Label);
        push_line(&mut lines, popup.find_input.as_str(), iw, find_kind);
        push_line(&mut lines, " Replace:", iw, PopupLineKind::Label);
        push_line(&mut lines, popup.replace_input.as_str(), iw, replace_kind);
        push_line(&mut lines, "", iw, PopupLineKind::Blank);
        push_line(&mut lines, " Tab: next field   Enter: apply   Esc: cancel", iw, PopupLineKind::Hint);
        fit_lines_exec(&mut lines, ih, iw);
        let (n, row_offset) = if find_active {
            (chars_of(popup.find_input.as_str()).len(), 2u16)
        } else {
            (chars_of(popup.replace_input.as_str()).len(), 4u16)
        };
        let shown = if n < iw - 1 {
            n
        } else {
            iw - 1
        };
        let res = PopupRender {
            rect,
            title: " Replace ".to_owned(),
            lines,
            cursor: (rect.x + 1 + (shown as u16), rect.y + row_offset),
        };
        proof {
            reveal_strlit("");
            let r = search_render(self@.search->0, cols as int, rows as int)->0;
            assert(res@.lines =~= r.lines);
            assert(res@ == r);
        }
        Some(res)
    }
}

/// Which renderer the preview uses.
#[derive(Clone, Copy, PartialEq, Eq, Debug, Structural)]
pub enum PreviewBackend {
    /// The `glow` program.
    Glow,
    /// The plain text of the buffer.
    Fallback,
}

/// A piece of a bar, highlighted or not.
pub struct BarSpan {
    pub text: String,
    pub highlighted: bool,
}

/// The pieces of a bar as plain values.
pub open spec fn spans_view(s: Seq<BarSpan>) -> Seq<(Seq<char>, bool)> {
    s.map_values(|b: BarSpan| (b.text@, b.highlighted))
}

/// Where the terminal cursor goes: into the open "Save As" popup, else into
/// the open search popup, else on the editor's cursor when it is in view.
pub open spec fn screen_cursor_spec(v: crate::editor::EditorView, cols: u16, rows: u16) -> Option<
    (u16, u16),
> {
    let sa = match v.save_as {
        Some(p) => save_as_render(p, cols as int, rows as int),
        None => None,
    };
    let se = match v.search {
        Some(p) => search_render(p, cols as int, rows as int),
        None => None,
    };
    match sa {
        Some(r) => Some(r.cursor),
        None => match se {
            Some(r) => Some(r.cursor),
            None => {
                let rel_x = sat_sub(v.cursor.x as int, v.offset.x as int);
                let rel_y = sat_sub(v.cursor.y as int, v.offset.y as int);
                let gutter = crate::layout::spec_gutter_width(v.lines.len() as int);
                if rel_y < text_height(rows) && rel_x + gutter < sat_sub(cols as int, 2) {
                    Some(((rel_x + gutter + 1) as u16, (rel_y + 2) as u16))
                } else {
                    None
                }
            },
        },
    }
}

/// The title of the text panel: the file name, ` *` when modified, and
/// ` | Split Preview` when the preview is beside the text, between spaces.
pub open spec fn panel_title_spec(name: Seq<char>, modified: bool, split: bool) -> Seq<char> {
    " "@ + name + (if modified {
        " *"@
    } else {
        Seq::empty()
    }) + (if split {
        " | Split Preview"@
    } else {
        Seq::empty()
    }) + " "@
}

/// The label of the preview state on the status bar.
pub open spec fn preview_label(preview_mode: bool, backend: PreviewBackend) -> Seq<char> {
    if !preview_mode {
        "Preview:OFF"@
    } else {
        match backend {
            PreviewBackend::Glow => "Preview:Glow"@,
            PreviewBackend::Fallback => "Preview:Fallback"@,
        }
    }
}

/// The status bar, `cols` wide: the file name, the line and word counts,
/// whether the buffer is modified and the preview state on the left; the
/// cursor's line and column (from 1) on the right. The right part wins when
/// there is no room for both.
pub open spec fn status_bar_spec(
    name: Seq<char>,
    lines: nat,
    words: nat,
    modified: bool,
    preview: Seq<char>,
    ln: nat,
    col: nat,
    cols: int,
) -> Seq<char> {
    let left = " "@ + name + " | "@ + decimal(lines) + " lines | "@ + decimal(words) + " words"@ + (
    if modified {
        " (modified)"@
    } else {
        Seq::empty()
    }) + " | "@ + preview;
    let right = "Ln "@ + decimal(ln) + ", Col "@ + decimal(col) + " "@;
    if cols <= right.len() {
        clip(right, cols)
    } else {
        padded(left, cols - right.len()) + right
    }
}

/// The status bar of `v`, `cols` wide, for the file name `name`.
pub open spec fn editor_status_bar(
    v: crate::editor::EditorView,
    backend: PreviewBackend,
    cols: int,
    name: Seq<char>,
) -> Seq<char> {
    status_bar_spec(
        name,
        v.lines.len(),
        crate::document::total_words(v.lines),
        v.modified,
        preview_label(v.preview_mode, backend),
        (v.cursor.y + 1) as nat,
        (v.cursor.x + 1) as nat,
        cols,
    )
}

/// The message line, `cols` wide: the status message, or blank once it has
/// expired.
pub open spec fn message_bar_spec(status: Seq<char>, expired: bool, cols: int) -> Seq<char> {
    if expired {
        spaces(cols as nat)
    } else {
        padded(status, cols)
    }
}

/// The rest of the top bar from menu `index` on, `used` columns being
/// taken: a separator and the menu's label (the open menu's highlighted),
/// while there is room, then spaces to the end.
pub open spec fn menu_bar_from(cols: int, active: Option<MenuKind>, index: int, used: int) -> Seq<
    (Seq<char>, bool),
>
    decreases 4 - index,
{
    let tail = if used < cols {
        seq![(spaces((cols - used) as nat), false)]
    } else {
        Seq::empty()
    };
    if index >= 4 || used >= cols {
        tail
    } else {
        let sep = if index == 0 {
            " "@
        } else {
            "  "@
        };
        let fits = sep.len() <= cols - used;
        let used1 = if fits {
            used + sep.len()
        } else {
            used
        };
        let pre = if fits {
            seq![(sep, false)]
        } else {
            Seq::empty()
        };
        let menu = spec_menu_by_index(index as nat);
        let text = clip(" "@ + spec_menu_title(menu) + " "@, cols - used1);
        if text.len() == 0 {
            pre + if used1 < cols {
                seq![(spaces((cols - used1) as nat), false)]
            } else {
                Seq::empty()
            }
        } else {
            pre + seq![(text, active == Some(menu))] + menu_bar_from(
                cols,
                active,
                index + 1,
                used1 + text.len(),
            )
        }
    }
}

/// The top bar, `cols` wide: the title, then the menu labels.
pub open spec fn menu_bar_spec(cols: int, active: Option<MenuKind>) -> Seq<(Seq<char>, bool)> {
    if 12 <= cols {
        seq![(" redit v0.1 "@, false)] + menu_bar_from(cols, active, 0, 12)
    } else {
        menu_bar_from(cols, active, 0, 0)
    }
}

/// The lines inside the border of the dropdown of `menu` in `rect`: each
/// entry's label between spaces (blank past the last entry), padded to the
/// width, the selected one highlighted.
pub open spec fn dropdown_lines_spec(menu: MenuKind, rect: MenuRect, selected: usize) -> Seq<
    (Seq<char>, bool),
> {
    let labels = spec_menu_labels(menu);
    let iw = sat_sub(rect.width as int, 2);
    Seq::new(
        sat_sub(rect.height as int, 2) as nat,
        |i: int|
            (
                padded(
                    if i < labels.len() {
                        " "@ + labels[i] + " "@
                    } else {
                        Seq::empty()
                    },
                    iw,
                ),
                i == selected,
            ),
    )
}

/// The panel title for the file name `name`.
pub fn panel_title(name: &str, modified: bool, split: bool) -> (res: String)
    ensures
        res@ == panel_title_spec(name@, modified, split),
{
    let mut t = " ".to_owned();
    push_str(&mut t, name);
    if modified {
        push_str(&mut t, " *");
    }
    if split {
        push_str(&mut t, " | Split Preview");
    }
    push_str(&mut t, " ");
    proof {
        reveal_strlit(" ");
        reveal_strlit(" *");
        reveal_strlit(" | Split Preview");
    }
    assert(t@ =~= panel_title_spec(name@, modified, split));
    t
}

/// The status bar for the file name `name`, `lines` lines and `words`
/// words, the cursor on line `ln` and column `col`, `cols` wide.
pub fn status_bar_text(
    name: &str,
    lines: usize,
    words: usize,
    modified: bool,
    preview: &str,
    ln: usize,
    col: usize,
    cols: usize,
) -> (res: String)
    ensures
        res@ == status_bar_spec(
            name@,
            lines as nat,
            words as nat,
            modified,
            preview@,
            ln as nat,
            col as nat,
            cols as int,
        ),
{
    let mut left = " ".to_owned();
    push_str(&mut left, name);
    push_str(&mut left, " | ");
    push_str(&mut left, decimal_string(lines).as_str());
    push_str(&mut left, " lines | ");
    push_str(&mut left, decimal_string(words).as_str());
    push_str(&mut left, " words");
    if modified {
        push_str(&mut left, " (modified)");
    }
    push_str(&mut left, " | ");
    push_str(&mut left, preview);
    let mut right = "Ln ".to_owned();
    push_str(&mut right, decimal_string(ln).as_str());
    push_str(&mut right, ", Col ");
    push_str(&mut right, decimal_string(col).as_str());
    push_str(&mut right, " ");
    let right_width = chars_of(right.as_str()).len();
    proof {
        reveal_strlit(" ");
        reveal_strlit(" | ");
        reveal_strlit(" lines | ");
        reveal_strlit(" words");
        reveal_strlit(" (modified)");
        reveal_strlit("Ln ");
        reveal_strlit(", Col ");
    }
    let ghost want_left = " "@ + name@ + " | "@ + decimal(lines as nat) + " lines | "@ + decimal(
        words as nat,
    ) + " words"@ + (if modified {
        " (modified)"@
    } else {
        Seq::empty()
    }) + " | "@ + preview@;
    assert(left@ =~= want_left);
    if cols <= right_width {
        return crate::textfmt::clip_to_char_width(right.as_str(), cols);
    }
    let mut result = pad_or_clip_to_char_width(left.as_str(), cols - right_width);
    push_str(&mut result, right.as_str());
    result
}

/// The label of the preview state.
pub fn preview_label_text(preview_mode: bool, backend: PreviewBackend) -> (res: &'static str)
    ensures
        res@ == preview_label(preview_mode, backend),
{
    if !preview_mode {
        "Preview:OFF"
    } else {
        match backend {
            PreviewBackend::Glow => "Preview:Glow",
            PreviewBackend::Fallback => "Preview:Fallback",
        }
    }
}

/// The message line for the status message `status`.
pub fn message_bar_text(status: &str, expired: bool, cols: usize) -> (res: String)
    ensures
        res@ == message_bar_spec(status@, expired, cols as int),
{
    if expired {
        let r = pad_or_clip_to_char_width("", cols);
        proof {
            reveal_strlit("");
        }
        assert(r@ =~= spaces(cols as nat));
        return r;
    }
    pad_or_clip_to_char_width(status, cols)
}

/// Appends the rest of the top bar from menu `index` on.
fn menu_bar_rest(out: &mut Vec<BarSpan>, cols: usize, active: Option<MenuKind>, index: usize, used: usize)
    requires
        index <= 4,
    ensures
        spans_view(final(out)@) == spans_view(old(out)@) + menu_bar_from(
            cols as int,
            active,
            index as int,
            used as int,
        ),
    decreases 4 - index,
{
    let ghost start = spans_view(out@);
    proof {
        reveal_strlit(" ");
        reveal_strlit("  ");
        reveal_strlit("");
    }
    if index >= 4 || used >= cols {
        if used < cols {
            let fill = pad_or_clip_to_char_width("", cols - used);
            assert(fill@ =~= spaces((cols - used) as nat));
            out.push(BarSpan { text: fill, highlighted: false });
        }
        assert(spans_view(out@) =~= start + menu_bar_from(cols as int, active, index as int, used as int));
        return ;
    }
    let sep = if index == 0 {
        " "
    } else {
        "  "
    };
    let sep_width: usize = if index == 0 {
        1
    } else {
        2
    };
    let mut used1 = used;
    if sep_width <= cols - used {
        out.push(BarSpan { text: sep.to_owned(), highlighted: false });
        used1 = used + sep_width;
    }
    let ghost mid = spans_view(out@);
    let menu = crate::menu::menu_by_index(index);
    let mut item = " ".to_owned();
    push_str(&mut item, crate::menu::menu_title(menu));
    push_str(&mut item, " ");
    let text = crate::textfmt::clip_to_char_width(item.as_str(), cols - used1);
    let width = chars_of(text.as_str()).len();
    if width == 0 {
        if used1 < cols {
            let fill = pad_or_clip_to_char_width("", cols - used1);
            assert(fill@ =~= spaces((cols - used1) as nat));
            out.push(BarSpan { text: fill, highlighted: false });
        }
        assert(spans_view(out@) =~= start + menu_bar_from(cols as int, active, index as int, used as int));
        return ;
    }
    let highlighted = match active {
        Some(m) => m == menu,
        None => false,
    };
    out.push(BarSpan { text, highlighted });
    let ghost mid2 = spans_view(out@);
    menu_bar_rest(out, cols, active, index + 1, used1 + width);
    assert(spans_view(out@) =~= start + menu_bar_from(cols as int, active, index as int, used as int));
}

/// The top bar, `cols` wide, with `active` highlighted.
pub fn menu_bar(cols: usize, active: Option<MenuKind>) -> (res: Vec<BarSpan>)
    ensures
        spans_view(res@) == menu_bar_spec(cols as int, active),
{
    let mut out: Vec<BarSpan> = Vec::new();
    let title = crate::menu::app_title();
    let mut used: usize = 0;
    proof {
        reveal_strlit(" redit v0.1 ");
    }
    if 12 <= cols {
        out.push(BarSpan { text: title.to_owned(), highlighted: false });
        used = 12;
    }
    let ghost first = spans_view(out@);
    menu_bar_rest(&mut out, cols, active, 0, used);
    assert(spans_view(out@) =~= menu_bar_spec(cols as int, active));
    out
}

/// The lines inside the border of the dropdown of `menu` in `rect`, the
/// entry `selected` highlighted.
pub fn dropdown_lines(menu: MenuKind, rect: MenuRect, selected: usize) -> (res: Vec<BarSpan>)
    ensures
        spans_view(res@) == dropdown_lines_spec(menu, rect, selected),
{
    let entries = crate::menu::menu_entries(menu);
    let ih = rect.height.saturating_sub(2);
    let iw = rect.width.saturating_sub(2);
    let mut out: Vec<BarSpan> = Vec::new();
    let mut i: usize = 0;
    assert forall|k: int| 0 <= k < entries@.len() implies (#[trigger] entries@[k]).label@
        == spec_menu_labels(menu)[k] by {
        assert(entries@[k].mnemonic == crate::menu::spec_menu_entries(menu)[k].0);
    }
    while i < ih
        invariant
            i <= ih,
            ih == sat_sub(rect.height as int, 2),
            iw == sat_sub(rect.width as int, 2),
            entries@.len() == spec_menu_labels(menu).len(),
            forall|k: int|
                0 <= k < entries@.len() ==> (#[trigger] entries@[k]).label@ == spec_menu_labels(
                    menu,
                )[k],
            spans_view(out@) == dropdown_lines_spec(menu, rect, selected).take(i as int),
        decreases ih - i,
    {
        let mut text = String::new();
        if i < entries.len() {
            push_str(&mut text, " ");
            push_str(&mut text, entries[i].label);
            push_str(&mut text, " ");
            proof {
                reveal_strlit(" ");
            }
            assert(text@ =~= " "@ + spec_menu_labels(menu)[i as int] + " "@);
        } else {
            assert(text@ =~= Seq::<char>::empty());
        }
        let line = pad_or_clip_to_char_width(text.as_str(), iw);
        let ghost before = out@;
        let ghost want = dropdown_lines_spec(menu, rect, selected);
        assert(want[i as int] == (line@, i == selected));
        out.push(BarSpan { text: line, highlighted: i == selected });
        assert(spans_view(out@) =~= spans_view(before).push((line@, i == selected)));
        assert(want.take(i + 1) =~= want.take(i as int).push(want[i as int]));
        i += 1;
    }
    assert(dropdown_lines_spec(menu, rect, selected).take(i as int) =~= dropdown_lines_spec(
        menu,
        rect,
        selected,
    ));
    out
}

/// The rule between the editor and the preview: `height` rows of `│`.
pub fn separator_lines(height: usize) -> (res: Vec<String>)
    ensures
        res@.len() == height,
        forall|i: int| 0 <= i < height ==> (#[trigger] res@[i])@ == "│"@,
{
    let mut out: Vec<String> = Vec::new();
    let mut i: usize = 0;
    while i < height
        invariant
            i <= height,
            out@.len() == i,
            forall|k: int| 0 <= k < i ==> (#[trigger] out@[k])@ == "│"@,
        decreases height - i,
    {
        let rule = pad_or_clip_to_char_width(
            crate::textfmt::clip_to_char_width("│", crate::layout::PREVIEW_SEPARATOR_WIDTH).as_str(),
            crate::layout::PREVIEW_SEPARATOR_WIDTH,
        );
        proof {
            reveal_strlit("│");
        }
        assert(rule@ =~= "│"@);
        out.push(rule);
        i += 1;
    }
    out
}

impl Editor {
    /// Where the terminal cursor goes on a `cols` by `rows` screen.
    pub fn screen_cursor(&self, cols: u16, rows: u16) -> (res: Option<(u16, u16)>)
        ensures
            res == screen_cursor_spec(self@, cols, rows),
    {
        match self.build_save_as_popup_render(cols, rows) {
            Some(r) => return Some(r.cursor),
            None => {},
        }
        match self.build_search_popup_render(cols, rows) {
            Some(r) => return Some(r.cursor),
            None => {},
        }
        self.editor_cursor_cell(cols, rows)
    }

    /// The message line, `cols` wide; `expired` once the message has been
    /// shown long enough.
    pub fn message_bar_line(&self, cols: usize, expired: bool) -> (res: String)
        ensures
            res@ == message_bar_spec(self@.status, expired, cols as int),
    {
        message_bar_text(self.status.as_str(), expired, cols)
    }

    /// The top bar, `cols` wide.
    pub fn build_top_menu_line(&self, cols: usize) -> (res: Vec<BarSpan>)
        ensures
            spans_view(res@) == menu_bar_spec(cols as int, self@.active_menu),
    {
        menu_bar(cols, self.active_menu)
    }

    /// The lines of the open dropdown of `menu` in `rect`.
    pub fn dropdown_lines(&self, menu: MenuKind, rect: MenuRect) -> (res: Vec<BarSpan>)
        ensures
            spans_view(res@) == dropdown_lines_spec(menu, rect, self@.active_menu_index),
    {
        dropdown_lines(menu, rect, self.active_menu_index)
    }

    /// The title of the text panel on a screen `cols` wide. Without a path
    /// the name is `[No Name]`; with one, it is the file name that
    /// `Document::file_name_or_default` gives, stated for a path that every
    /// platform reads alike.
    pub fn panel_title(&self, cols: u16) -> (res: String)
        ensures
            ({
                let split = crate::layout::spec_preview_layout(
                    self@.preview_mode,
                    crate::layout::spec_gutter_width(self@.lines.len() as int),
                    sat_sub(cols as int, 2),
                ) is Some;
                &&& self@.file_path is None ==> res@ == panel_title_spec(
                    "[No Name]"@,
                    self@.modified,
                    split,
                )
                &&& self@.file_path matches Some(p) ==> (slash_path(p) ==> res@ == panel_title_spec(
                    shown_file_name(p),
                    self@.modified,
                    split,
                ))
                &&& exists|name: Seq<char>| res@ == panel_title_spec(name, self@.modified, split)
            }),
    {
        let name = self.doc.file_name_or_default();
        let split = self.preview_layout((cols as usize).saturating_sub(2)).is_some();
        let res = panel_title(name.as_str(), self.doc.modified, split);
        assert(res@ == panel_title_spec(name@, self@.modified, split));
        res
    }

    /// The status bar, `cols` wide, the preview drawn by `backend`. Without
    /// a path the name is `[No Name]`; with one, it is the file name that
    /// `Document::file_name_or_default` gives, stated for a path that every
    /// platform reads alike.
    pub fn status_bar_line(&self, cols: usize, backend: PreviewBackend) -> (res: String)
        requires
            crate::editor::wf(self@),
            crate::document::total_words(self@.lines) <= usize::MAX,
            self@.cursor.x < usize::MAX,
        ensures
            self@.file_path is None ==> res@ == editor_status_bar(
                self@,
                backend,
                cols as int,
                "[No Name]"@,
            ),
            self@.file_path matches Some(p) ==> (slash_path(p) ==> res@ == editor_status_bar(
                self@,
                backend,
                cols as int,
                shown_file_name(p),
            )),
            exists|name: Seq<char>| res@ == #[trigger] editor_status_bar(self@, backend, cols as int, name),
    {
        let name = self.doc.file_name_or_default();
        let lines = self.doc.line_count();
        let words = self.doc.word_count();
        let preview = preview_label_text(self.preview_mode, backend);
        let res = status_bar_text(
            name.as_str(),
            lines,
            words,
            self.doc.modified,
            preview,
            self.cursor.y + 1,
            self.cursor.x + 1,
            cols,
        );
        assert(res@ == editor_status_bar(self@, backend, cols as int, name@));
        res
    }
}

} // verus!
