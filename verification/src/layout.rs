//! Where things stand on the screen: the line-number gutter, the split
//! between the editor and the preview, the scrolling that keeps the cursor
//! in view, and the buffer position under a mouse click.
use vstd::prelude::*;

use crate::document::{min_int, Position};
use crate::editor::{line_len, text_height, Editor, EditorView};
use crate::markdown::{decimal, decimal_string};
use crate::text::chars_of;

verus! {

/// The narrowest body (editor and preview together) that is split.
pub const PREVIEW_MIN_TOTAL_WIDTH: usize = 56;

/// The width of the rule between the editor and the preview.
pub const PREVIEW_SEPARATOR_WIDTH: usize = 1;

/// `a - b`, or 0 when `b` is larger.
pub open spec fn sat_sub(a: int, b: int) -> int {
    if a >= b {
        a - b
    } else {
        0
    }
}

/// The width of the line-number gutter: the digits of the line count (at
/// least 1) and one space.
pub open spec fn spec_gutter_width(line_count: int) -> int {
    decimal(
        if line_count <= 1 {
            1nat
        } else {
            line_count as nat
        },
    ).len() as int + 1
}

/// The split of a body `cols` columns wide into editor, rule and preview:
/// the rule's column, the preview's first column and its width; `None` when
/// the preview is off or the body is too narrow.
pub open spec fn spec_preview_layout(preview_mode: bool, gutter: int, cols: int) -> Option<
    (int, int, int),
> {
    let total_body = sat_sub(cols, gutter);
    let editor_width = sat_sub(total_body, PREVIEW_SEPARATOR_WIDTH as int) / 2;
    let separator_x = gutter + editor_width;
    let preview_x = separator_x + PREVIEW_SEPARATOR_WIDTH;
    let preview_width = sat_sub(cols, preview_x);
    if !preview_mode || total_body < PREVIEW_MIN_TOTAL_WIDTH || editor_width == 0 || preview_width
        == 0 {
        None
    } else {
        Some((separator_x, preview_x, preview_width))
    }
}

/// The number of text columns of the editor in a body `cols` columns wide.
pub open spec fn spec_body_width(preview_mode: bool, gutter: int, cols: int) -> int {
    match spec_preview_layout(preview_mode, gutter, cols) {
        Some((separator_x, _, _)) => sat_sub(separator_x, gutter),
        None => sat_sub(cols, gutter),
    }
}

/// The editor's text columns on a screen `cols` columns wide (inside the
/// border).
pub open spec fn view_body_width(v: EditorView, cols: int) -> int {
    spec_body_width(v.preview_mode, spec_gutter_width(v.lines.len() as int), sat_sub(cols, 2))
}

/// The first visible row or column after scrolling a window of `size`
/// starting at `offset` so that `cursor` is inside it.
pub open spec fn scroll_axis(cursor: int, offset: int, size: int) -> int {
    let o = if cursor < offset {
        cursor
    } else {
        offset
    };
    if size > 0 && cursor >= o + size {
        cursor - size + 1
    } else {
        o
    }
}

/// `v` scrolled so that the cursor is visible on a `cols` by `rows` screen.
pub open spec fn scroll_op(v: EditorView, cols: u16, rows: u16) -> EditorView {
    EditorView {
        offset: Position {
            x: scroll_axis(v.cursor.x as int, v.offset.x as int, view_body_width(v, cols as int))
                as usize,
            y: scroll_axis(v.cursor.y as int, v.offset.y as int, text_height(rows)) as usize,
        },
        ..v
    }
}

/// The buffer position under the screen cell (`column`, `row`) of a `cols`
/// by `rows` screen: a click on the gutter means column 0, a click past the
/// end of a line its end, a click below the last line the last line; `None`
/// outside the editor's text area.
pub open spec fn mouse_position(v: EditorView, column: int, row: int, cols: int, rows: int) -> Option<
    Position,
> {
    let th = sat_sub(rows, 5);
    let gutter = spec_gutter_width(v.lines.len() as int);
    let body = spec_body_width(v.preview_mode, gutter, sat_sub(cols, 2));
    if th == 0 || row < 2 || row >= 2 + th || column < 1 || column >= 1 + gutter + body {
        None
    } else {
        let y = min_int(v.offset.y + (row - 2), sat_sub(v.lines.len() as int, 1));
        let vx = if column <= gutter {
            0
        } else {
            v.offset.x + column - (gutter + 1)
        };
        Some(Position { x: min_int(vx, line_len(v, y)) as usize, y: y as usize })
    }
}

/// A position under the mouse is on a line of the buffer, at most at its
/// end.
pub proof fn lemma_mouse_position_valid(v: EditorView, column: int, row: int, cols: int, rows: int)
    requires
        1 <= v.lines.len() <= usize::MAX,
    ensures
        mouse_position(v, column, row, cols, rows) matches Some(p) ==> (p.y < v.lines.len() && (
        line_len(v, p.y as int) <= usize::MAX ==> p.x <= line_len(v, p.y as int))),
{
}

proof fn lemma_decimal_len(n: nat)
    ensures
        n >= 1 ==> decimal(n).len() <= n,
        n >= 10 ==> decimal(n).len() < n,
    decreases n,
{
    if n >= 10 {
        lemma_decimal_len(n / 10);
    }
}

/// The width of the line-number gutter for `line_count` lines.
pub fn gutter_width(line_count: usize) -> (res: usize)
    ensures
        res == spec_gutter_width(line_count as int),
{
    let n = if line_count == 0 {
        1
    } else {
        line_count
    };
    let digits = chars_of(decimal_string(n).as_str()).len();
    proof {
        lemma_decimal_len(n as nat);
    }
    digits + 1
}

/// The split of a body `cols` columns wide into editor, rule and preview.
pub fn preview_layout(preview_mode: bool, gutter: usize, cols: usize) -> (res: Option<
    (usize, usize, usize),
>)
    ensures
        match res {
            Some((s, p, w)) => spec_preview_layout(preview_mode, gutter as int, cols as int) == Some(
                (s as int, p as int, w as int),
            ),
            None => spec_preview_layout(preview_mode, gutter as int, cols as int) is None,
        },
{
    if !preview_mode {
        return None;
    }
    let total_body = cols.saturating_sub(gutter);
    if total_body < PREVIEW_MIN_TOTAL_WIDTH {
        return None;
    }
    let editor_width = total_body.saturating_sub(PREVIEW_SEPARATOR_WIDTH) / 2;
    let separator_x = gutter + editor_width;
    let preview_x = separator_x + PREVIEW_SEPARATOR_WIDTH;
    let preview_width = cols.saturating_sub(preview_x);
    if editor_width == 0 || preview_width == 0 {
        return None;
    }
    Some((separator_x, preview_x, preview_width))
}

/// The number of text columns of the editor in a body `cols` columns wide.
pub fn body_width(preview_mode: bool, gutter: usize, cols: usize) -> (res: usize)
    ensures
        res == spec_body_width(preview_mode, gutter as int, cols as int),
{
    match preview_layout(preview_mode, gutter, cols) {
        Some((separator_x, _, _)) => separator_x.saturating_sub(gutter),
        None => cols.saturating_sub(gutter),
    }
}

/// The first visible row or column after scrolling a window of `size`
/// starting at `offset` so that `cursor` is inside it.
pub fn scroll_axis_exec(cursor: usize, offset: usize, size: usize) -> (res: usize)
    ensures
        res == scroll_axis(cursor as int, offset as int, size as int),
{
    let o = if cursor < offset {
        cursor
    } else {
        offset
    };
    if size > 0 && cursor - o >= size {
        cursor - size + 1
    } else {
        o
    }
}

impl Editor {
    /// The width of the line-number gutter.
    pub fn gutter_width(&self) -> (res: usize)
        ensures
            res == spec_gutter_width(self@.lines.len() as int),
    {
        gutter_width(self.doc.line_count())
    }

    /// The split of a body `cols` columns wide into editor, rule and
    /// preview, when the preview is on and there is room.
    pub fn preview_layout(&self, cols: usize) -> (res: Option<(usize, usize, usize)>)
        ensures
            match res {
                Some((s, p, w)) => spec_preview_layout(
                    self@.preview_mode,
                    spec_gutter_width(self@.lines.len() as int),
                    cols as int,
                ) == Some((s as int, p as int, w as int)),
                None => spec_preview_layout(
                    self@.preview_mode,
                    spec_gutter_width(self@.lines.len() as int),
                    cols as int,
                ) is None,
            },
    {
        preview_layout(self.preview_mode, self.gutter_width(), cols)
    }

    /// The number of text columns of the editor in a body `cols` columns wide.
    pub fn editor_body_width(&self, cols: usize) -> (res: usize)
        ensures
            res == spec_body_width(
                self@.preview_mode,
                spec_gutter_width(self@.lines.len() as int),
                cols as int,
            ),
    {
        body_width(self.preview_mode, self.gutter_width(), cols)
    }

    /// Scrolls so that the cursor is visible on a `cols` by `rows` screen.
    pub fn scroll(&mut self, cols: u16, rows: u16)
        ensures
            final(self)@ == scroll_op(old(self)@, cols, rows),
    {
        let inner = (cols as usize).saturating_sub(2);
        let height = Self::text_area_height(rows);
        let width = self.editor_body_width(inner);
        let y = scroll_axis_exec(self.cursor.y, self.offset.y, height);
        let x = scroll_axis_exec(self.cursor.x, self.offset.x, width);
        self.offset = Position { x, y };
        assert(final(self)@ =~= scroll_op(old(self)@, cols, rows));
    }

    /// The buffer position under the screen cell (`column`, `row`) of a
    /// `cols` by `rows` screen.
    pub fn editor_position_from_mouse(&self, column: u16, row: u16, cols: u16, rows: u16) -> (res:
        Option<Position>)
        ensures
            res == mouse_position(self@, column as int, row as int, cols as int, rows as int),
    {
        let column = column as usize;
        let row = row as usize;
        let inner_width = (cols as usize).saturating_sub(2);
        let th = (rows as usize).saturating_sub(5);
        if th == 0 {
            return None;
        }
        if row < 2 || row >= 2 + th {
            return None;
        }
        let gutter = self.gutter_width();
        let body = self.editor_body_width(inner_width);
        if column < 1 {
            return None;
        }
        if column - 1 >= gutter && column - 1 - gutter >= body {
            return None;
        }
        let last = self.doc.line_count().saturating_sub(1);
        let down = row - 2;
        let y = if self.offset.y > last || down >= last - self.offset.y {
            last
        } else {
            self.offset.y + down
        };
        let len = self.doc.line_char_len(y);
        let x = if column <= gutter {
            0
        } else {
            let right = column - (gutter + 1);
            if self.offset.x > len || right >= len - self.offset.x {
                len
            } else {
                self.offset.x + right
            }
        };
        Some(Position { x, y })
    }

    /// Where the terminal cursor goes for the editor's cursor on a `cols` by
    /// `rows` screen: the cell of the cursor (inside the border, after the
    /// gutter), or `None` when it is scrolled out of view.
    pub fn editor_cursor_cell(&self, cols: u16, rows: u16) -> (res: Option<(u16, u16)>)
        ensures
            ({
                let v = self@;
                let rel_x = sat_sub(v.cursor.x as int, v.offset.x as int);
                let rel_y = sat_sub(v.cursor.y as int, v.offset.y as int);
                let gutter = spec_gutter_width(v.lines.len() as int);
                if rel_y < text_height(rows) && rel_x + gutter < sat_sub(cols as int, 2) {
                    res == Some(((rel_x + gutter + 1) as u16, (rel_y + 2) as u16))
                } else {
                    res is None
                }
            }),
    {
        let inner_width = (cols as usize).saturating_sub(2);
        let th = Self::text_area_height(rows);
        let rel_x = self.cursor.x.saturating_sub(self.offset.x);
        let rel_y = self.cursor.y.saturating_sub(self.offset.y);
        let gutter = self.gutter_width();
        if rel_y < th && gutter < inner_width && rel_x < inner_width - gutter {
            Some(((rel_x + gutter + 1) as u16, (rel_y + 2) as u16))
        } else {
            None
        }
    }
}

/// After scrolling, the cursor is on screen: its line among the text rows
/// and its column among the text columns (where there are any).
pub proof fn law_scroll_shows_cursor(v: EditorView, cols: u16, rows: u16)
    ensures
        ({
            let w = scroll_op(v, cols, rows);
            let th = text_height(rows);
            let tw = view_body_width(v, cols as int);
            &&& th > 0 ==> w.offset.y <= w.cursor.y < w.offset.y + th
            &&& tw > 0 ==> w.offset.x <= w.cursor.x < w.offset.x + tw
            &&& w.cursor == v.cursor
            &&& w.lines == v.lines
        }),
{
    let w = scroll_op(v, cols, rows);
    let th = text_height(rows);
    let tw = view_body_width(v, cols as int);
    lemma_scroll_axis(v.cursor.y as int, v.offset.y as int, th);
    lemma_scroll_axis(v.cursor.x as int, v.offset.x as int, tw);
}

proof fn lemma_scroll_axis(c: int, o: int, size: int)
    requires
        0 <= c,
        0 <= o,
    ensures
        0 <= scroll_axis(c, o, size) <= c,
        size > 0 ==> c < scroll_axis(c, o, size) + size,
        c <= usize::MAX ==> scroll_axis(c, o, size) <= usize::MAX,
{
}

} // verus!
