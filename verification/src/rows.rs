//! The text rows of the editor panel: the line number in the gutter, then
//! the visible part of the line cut into runs of one look (its markdown
//! style and whether it is selected), then the padding.
use vstd::prelude::*;

use crate::document::min_int;
use crate::editor::{selection_of, Editor, EditorView};
use crate::layout::sat_sub;
use crate::markdown::{
    decimal, decimal_string, is_fenced_code_line, is_indented_code_line, is_setext_underline_line,
    markdown_styles_for_line, spec_is_fence, spec_is_indented_code, spec_is_setext_underline,
    spec_styles_for_line, MdStyle,
};
use crate::selection::spec_selection_range_for_line;
use crate::text::{chars_of, push_char, push_str};
use crate::textfmt::{spaces, trim, trim_text};

verus! {

/// How a piece of text is drawn. Markdown styles that are drawn alike share
/// a look, so that the runs of a row are as long as the drawing allows.
#[derive(Clone, Copy, PartialEq, Eq, Debug, Structural)]
pub enum TextLook {
    /// Plain text (also headings, strong text and link text).
    Plain,
    /// Italic text (quotes, emphasis, link targets).
    Italic,
    /// Dimmed text (code, struck text).
    Dim,
    /// Markdown markers.
    Marker,
    /// HTML tags.
    HtmlTag,
    /// Selected text.
    SelectedPlain,
    /// Selected italic text.
    SelectedItalic,
    /// Selected dimmed text.
    SelectedDim,
    /// The faint `~` of a row past the end of the buffer.
    Faint,
    /// Highlighted code: its colour and its font style (bold 1, underline
    /// 2, italic 4).
    Code { r: u8, g: u8, b: u8, font: u8 },
    /// Selected highlighted code, which keeps its font style.
    SelectedCode { font: u8 },
}

/// The look of a character of markdown style `style`, selected or not.
pub open spec fn look_of(style: MdStyle, selected: bool) -> TextLook {
    let base = match style {
        MdStyle::Quote | MdStyle::Emphasis | MdStyle::EmphasisStrong | MdStyle::LinkUrl => TextLook::Italic,
        MdStyle::Code | MdStyle::Strike => TextLook::Dim,
        MdStyle::Marker => TextLook::Marker,
        MdStyle::HtmlTag => TextLook::HtmlTag,
        _ => TextLook::Plain,
    };
    if !selected {
        base
    } else {
        match base {
            TextLook::Italic => TextLook::SelectedItalic,
            TextLook::Dim => TextLook::SelectedDim,
            _ => TextLook::SelectedPlain,
        }
    }
}

/// `s` cut into maximal runs of characters of one look, `l` giving the look
/// of each character.
pub open spec fn group_runs(s: Seq<char>, l: Seq<TextLook>) -> Seq<(Seq<char>, TextLook)>
    decreases s.len(),
{
    if s.len() == 0 {
        Seq::empty()
    } else {
        let rest = group_runs(s.drop_last(), l.drop_last());
        if rest.len() > 0 && rest.last().1 == l.last() {
            rest.update(rest.len() - 1, (rest.last().0.push(s.last()), l.last()))
        } else {
            rest.push((seq![s.last()], l.last()))
        }
    }
}

/// Whether column `i` is in the range `sel`.
pub open spec fn in_range(sel: Option<(int, int)>, i: int) -> bool {
    match sel {
        Some((s, e)) => s <= i < e,
        None => false,
    }
}

/// The visible part of `line` from column `offset_x`, at most `width`
/// characters, cut into runs of one look (the columns in `sel` selected);
/// the number of characters shown; and whether a fenced code block is open
/// after the line.
pub open spec fn window_spec(
    line: Seq<char>,
    offset_x: int,
    width: int,
    in_code: bool,
    setext: bool,
    sel: Option<(int, int)>,
) -> (Seq<(Seq<char>, TextLook)>, int, bool) {
    let len = line.len() as int;
    let indented = !in_code && spec_is_indented_code(line);
    let styles = spec_styles_for_line(line, in_code, setext, indented);
    let start = min_int(offset_x, len);
    let end = min_int(start + width, len);
    let looks = Seq::new((end - start) as nat, |k: int| look_of(styles[start + k], in_range(sel, start + k)));
    (
        group_runs(line.subrange(start, end), looks),
        end - start,
        if spec_is_fence(line) {
            !in_code
        } else {
            in_code
        },
    )
}

/// Whether a fenced code block is open after the first `n` lines.
pub open spec fn fence_state(lines: Seq<Seq<char>>, n: int) -> bool
    decreases n,
{
    if n <= 0 {
        false
    } else {
        let before = fence_state(lines, n - 1);
        if spec_is_fence(lines[n - 1]) {
            !before
        } else {
            before
        }
    }
}

/// `s` right-aligned in `w` columns (left as it is when longer).
pub open spec fn right_aligned(s: Seq<char>, w: int) -> Seq<char> {
    spaces(sat_sub(w, s.len() as int) as nat) + s
}

/// A text row as plain values.
pub struct RowView {
    pub gutter: Seq<char>,
    pub current: bool,
    pub segments: Seq<(Seq<char>, TextLook)>,
    pub fill: int,
}

/// The row of buffer line `f` (0-based) in a gutter `gutter` wide and a
/// body `body_width` wide: the line number right-aligned and a space; the
/// runs of the visible part of the line (a setext heading when the next
/// line underlines it, outside code); spaces to the width. Past the last
/// line, a faint `~`.
pub open spec fn row_spec(v: EditorView, f: int, gutter: int, body_width: int) -> RowView {
    let number = right_aligned(decimal((f + 1) as nat), sat_sub(gutter, 1)) + " "@;
    let current = f == v.cursor.y;
    if f < v.lines.len() {
        let line = v.lines[f];
        let in_code = fence_state(v.lines, f);
        let setext = !in_code && trim(line).len() > 0 && f + 1 < v.lines.len()
            && spec_is_setext_underline(v.lines[f + 1]);
        let sel = match selection_of(v) {
            Some(s) => spec_selection_range_for_line(s, f, line.len() as int),
            None => None,
        };
        let w = window_spec(line, v.offset.x as int, body_width, in_code, setext, sel);
        RowView { gutter: number, current, segments: w.0, fill: body_width - w.1 }
    } else if body_width > 0 {
        RowView {
            gutter: number,
            current,
            segments: seq![("~"@, TextLook::Faint)],
            fill: body_width - 1,
        }
    } else {
        RowView { gutter: number, current, segments: Seq::empty(), fill: 0 }
    }
}

/// A run of text of one look.
pub struct Segment {
    pub text: String,
    pub look: TextLook,
}

/// A text row of the editor panel.
pub struct EditorRow {
    /// The line number, right-aligned, and a space.
    pub gutter: String,
    /// Whether this is the cursor's line.
    pub current: bool,
    /// The visible text, in runs of one look.
    pub segments: Vec<Segment>,
    /// The number of spaces after the text.
    pub fill: usize,
}

/// The runs as plain values.
pub open spec fn segments_view(s: Seq<Segment>) -> Seq<(Seq<char>, TextLook)> {
    s.map_values(|g: Segment| (g.text@, g.look))
}

impl View for EditorRow {
    type V = RowView;

    open spec fn view(&self) -> RowView {
        RowView {
            gutter: self.gutter@,
            current: self.current,
            segments: segments_view(self.segments@),
            fill: self.fill as int,
        }
    }
}

/// The look of a character of markdown style `style`, selected or not.
pub fn text_look(style: MdStyle, selected: bool) -> (res: TextLook)
    ensures
        res == look_of(style, selected),
{
    let base = match style {
        MdStyle::Quote | MdStyle::Emphasis | MdStyle::EmphasisStrong | MdStyle::LinkUrl => TextLook::Italic,
        MdStyle::Code | MdStyle::Strike => TextLook::Dim,
        MdStyle::Marker => TextLook::Marker,
        MdStyle::HtmlTag => TextLook::HtmlTag,
        _ => TextLook::Plain,
    };
    if !selected {
        base
    } else {
        match base {
            TextLook::Italic => TextLook::SelectedItalic,
            TextLook::Dim => TextLook::SelectedDim,
            _ => TextLook::SelectedPlain,
        }
    }
}

/// The visible part of `line` from column `offset_x`, at most `width`
/// characters, in runs of one look; the number of characters shown; and
/// whether a fenced code block is open after the line.
pub fn markdown_spans_for_window(
    line: &str,
    offset_x: usize,
    width: usize,
    in_code_block: bool,
    setext_heading: bool,
    selected_range: Option<(usize, usize)>,
) -> (res: (Vec<Segment>, usize, bool))
    ensures
        ({
            let sel = match selected_range {
                Some((s, e)) => Some((s as int, e as int)),
                None => None,
            };
            let w = window_spec(line@, offset_x as int, width as int, in_code_block, setext_heading, sel);
            segments_view(res.0@) == w.0 && res.1 as int == w.1 && res.2 == w.2
        }),
{
    let ghost sel = match selected_range {
        Some((s, e)) => Some((s as int, e as int)),
        None => None,
    };
    let chars = chars_of(line);
    let indented = !in_code_block && is_indented_code_line(line);
    let styles = markdown_styles_for_line(chars.as_slice(), in_code_block, setext_heading, indented);
    let len = chars.len();
    let start = if offset_x < len {
        offset_x
    } else {
        len
    };
    let end = if width >= len - start {
        len
    } else {
        start + width
    };
    let ghost looks = Seq::new(
        (end - start) as nat,
        |k: int| look_of(styles@[start + k], in_range(sel, start + k)),
    );
    let ghost window = chars@.subrange(start as int, end as int);
    let mut segments: Vec<Segment> = Vec::new();
    if start < end {
        let first_sel = match selected_range {
            Some((s, e)) => s <= start && start < e,
            None => false,
        };
        let mut current = text_look(styles[start], first_sel);
        let mut segment = String::new();
        push_char(&mut segment, chars[start]);
        let mut idx = start + 1;
        proof {
            assert(window.take(1).last() == chars@[start as int]);
            assert(looks[0] == look_of(styles@[start as int], in_range(sel, start as int)));
            assert(looks.take(1).last() == current);
            assert(segment@ =~= seq![chars@[start as int]]);
            assert(group_runs(window.take(1).drop_last(), looks.take(1).drop_last()).len() == 0);
            assert(window.take(1).drop_last() =~= Seq::<char>::empty());
            assert(looks.take(1).drop_last() =~= Seq::<TextLook>::empty());
            assert(group_runs(window.take(1), looks.take(1)) == seq![(segment@, current)]);
        }
        while idx < end
            invariant
                start < idx <= end <= len,
                len == chars@.len(),
                chars@ == line@,
                styles@.len() == len,
                styles@ == spec_styles_for_line(line@, in_code_block, setext_heading, indented),
                window == chars@.subrange(start as int, end as int),
                looks == Seq::new(
                    (end - start) as nat,
                    |k: int| look_of(styles@[start + k], in_range(sel, start + k)),
                ),
                sel == match selected_range {
                    Some((s, e)) => Some((s as int, e as int)),
                    None => None::<(int, int)>,
                },
                segments_view(segments@) + seq![(segment@, current)] == group_runs(
                    window.take(idx - start),
                    looks.take(idx - start),
                ),
            decreases end - idx,
        {
            let selected = match selected_range {
                Some((s, e)) => s <= idx && idx < e,
                None => false,
            };
            let look = text_look(styles[idx], selected);
            let ghost k = idx - start;
            proof {
                assert(window.take(k + 1).drop_last() =~= window.take(k));
                assert(looks.take(k + 1).drop_last() =~= looks.take(k));
                assert(window.take(k + 1).last() == chars@[idx as int]);
                assert(looks.take(k + 1).last() == look);
            }
            let ghost prev = segments_view(segments@) + seq![(segment@, current)];
            if look == current {
                push_char(&mut segment, chars[idx]);
                assert(segments_view(segments@) + seq![(segment@, current)] =~= prev.update(
                    prev.len() - 1,
                    (prev.last().0.push(chars@[idx as int]), look),
                ));
            } else {
                let done = Segment { text: segment, look: current };
                let ghost before = segments@;
                segments.push(done);
                assert(segments_view(segments@) =~= segments_view(before).push(
                    (done.text@, done.look),
                ));
                segment = String::new();
                push_char(&mut segment, chars[idx]);
                current = look;
                assert(segments_view(segments@) + seq![(segment@, current)] =~= prev.push(
                    (seq![chars@[idx as int]], look),
                ));
            }
            idx += 1;
        }
        let ghost before = segments@;
        segments.push(Segment { text: segment, look: current });
        proof {
            assert(window.take(end - start) =~= window);
            assert(looks.take(end - start) =~= looks);
            assert(segments_view(segments@) =~= segments_view(before) + seq![(segment@, current)]);
        }
    } else {
        proof {
            assert(window =~= Seq::<char>::empty());
        }
        assert(segments_view(segments@) =~= Seq::<(Seq<char>, TextLook)>::empty());
    }
    let next = if is_fenced_code_line(line) {
        !in_code_block
    } else {
        in_code_block
    };
    (segments, end - start, next)
}

/// `n` right-aligned in `w` columns, then a space.
pub(crate) fn gutter_text(n: usize, w: usize) -> (res: String)
    ensures
        res@ == right_aligned(decimal(n as nat), w as int) + " "@,
{
    let digits = decimal_string(n);
    let count = chars_of(digits.as_str()).len();
    let mut out = String::new();
    let mut k = count;
    while k < w
        invariant
            count <= k <= w || (k == count && count >= w),
            out@ == spaces((k - count) as nat),
        decreases w - k,
    {
        push_char(&mut out, ' ');
        assert(out@ =~= spaces((k + 1 - count) as nat));
        k += 1;
    }
    assert(out@ =~= spaces(sat_sub(w as int, count as int) as nat));
    push_str(&mut out, digits.as_str());
    push_str(&mut out, " ");
    proof {
        reveal_strlit(" ");
    }
    out
}

impl Editor {
    /// Whether a fenced code block is open after the first `row` lines.
    pub fn code_block_state_before(&self, row: usize) -> (res: bool)
        ensures
            res == fence_state(self@.lines, min_int(row as int, self@.lines.len() as int)),
    {
        let mut in_code_block = false;
        let mut i: usize = 0;
        let n = self.doc.line_count();
        let stop = if row < n {
            row
        } else {
            n
        };
        while i < stop
            invariant
                i <= stop <= n,
                n == self@.lines.len(),
                stop == min_int(row as int, n as int),
                in_code_block == fence_state(self@.lines, i as int),
            decreases stop - i,
        {
            if is_fenced_code_line(self.doc.lines[i].as_str()) {
                in_code_block = !in_code_block;
            }
            i += 1;
        }
        in_code_block
    }

    /// The row of buffer line `f`.
    pub(crate) fn editor_row(&self, f: usize, in_code: bool, gutter: usize, body_width: usize) -> (res: EditorRow)
        requires
            f < usize::MAX,
            f < self@.lines.len() ==> in_code == fence_state(self@.lines, f as int),
        ensures
            res@ == row_spec(self@, f as int, gutter as int, body_width as int),
    {
        let number = gutter_text(f + 1, gutter.saturating_sub(1));
        let current = f == self.cursor.y;
        match self.doc.line(f) {
            Some(line) => {
                let setext = if in_code || trim_text(line.as_str()).as_str().is_empty() {
                    false
                } else {
                    match self.doc.line(f + 1) {
                        Some(next) => is_setext_underline_line(next.as_str()),
                        None => false,
                    }
                };
                let len = chars_of(line.as_str()).len();
                let sel = self.selection_range_for_line(f, len);
                let (segments, rendered, _) = markdown_spans_for_window(
                    line.as_str(),
                    self.offset.x,
                    body_width,
                    in_code,
                    setext,
                    sel,
                );
                let res = EditorRow { gutter: number, current, segments, fill: body_width - rendered };
                proof {
                    let v = self@;
                    let spec_sel = match selection_of(v) {
                        Some(s) => spec_selection_range_for_line(s, f as int, v.lines[f as int].len() as int),
                        None => None,
                    };
                    let given = match sel {
                        Some((s, e)) => Some((s as int, e as int)),
                        None => None,
                    };
                    assert(given == spec_sel);
                }
                res
            },
            None => {
                let mut segments: Vec<Segment> = Vec::new();
                let mut fill: usize = 0;
                if body_width > 0 {
                    segments.push(Segment { text: "~".to_owned(), look: TextLook::Faint });
                    fill = body_width - 1;
                }
                let res = EditorRow { gutter: number, current, segments, fill };
                assert(res@.segments =~= row_spec(self@, f as int, gutter as int, body_width as int).segments);
                res
            },
        }
    }

    /// The `text_height` rows of the editor panel, from the first visible
    /// line, in a gutter `gutter` wide and a body `body_width` wide.
    pub fn build_markdown_editor_lines(&self, text_height: usize, gutter: usize, body_width: usize) -> (res: Vec<
        EditorRow,
    >)
        requires
            self@.offset.y + text_height < usize::MAX,
        ensures
            res@.len() == text_height,
            forall|r: int|
                0 <= r < text_height ==> (#[trigger] res@[r])@ == row_spec(
                    self@,
                    self@.offset.y + r,
                    gutter as int,
                    body_width as int,
                ),
    {
        let mut rows: Vec<EditorRow> = Vec::new();
        let mut in_code = self.code_block_state_before(self.offset.y);
        let n = self.doc.line_count();
        let mut r: usize = 0;
        while r < text_height
            invariant
                r <= text_height,
                self@.offset.y + text_height < usize::MAX,
                n == self@.lines.len(),
                rows@.len() == r,
                forall|k: int|
                    0 <= k < r ==> (#[trigger] rows@[k])@ == row_spec(
                        self@,
                        self@.offset.y + k,
                        gutter as int,
                        body_width as int,
                    ),
                self@.offset.y + r < n ==> in_code == fence_state(
                    self@.lines,
                    self@.offset.y + r,
                ),
            decreases text_height - r,
        {
            let f = self.offset.y + r;
            let row = self.editor_row(f, in_code, gutter, body_width);
            if f < n {
                if is_fenced_code_line(self.doc.lines[f].as_str()) {
                    in_code = !in_code;
                }
            }
            rows.push(row);
            r += 1;
        }
        rows
    }
}

} // verus!
