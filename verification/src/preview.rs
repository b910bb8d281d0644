//! The markdown preview: the text handed to the renderer (HTML headings
//! rewritten as markdown), the plain fallback, and the rows of the preview
//! panel made from the renderer's output.
use vstd::prelude::*;

use crate::ansi::{
    ansi_from, ansi_line_spec, ansi_to_line_clipped, base_sgr_style, base_style, flush_run,
    runs_view, SgrStyle, StyledRun, TermColor,
};
use crate::document::{join_lines, lines_view};
use crate::editor::{opt_string_view, Editor};
use crate::screen::PreviewBackend;
use crate::text::{chars_of, push_char, push_str};
use crate::textfmt::{
    clip, clip_to_char_width, html_heading_to_markdown, spec_html_heading, strip_ansi_escape_codes,
    strip_escapes_from,
};

verus! {

/// A line as the preview renders it: an HTML heading rewritten as
/// markdown, any other line as it is.
pub open spec fn preview_source_line(line: Seq<char>) -> Seq<char> {
    match spec_html_heading(line) {
        Some(h) => h,
        None => line,
    }
}

/// The total length of the runs.
pub open spec fn runs_width(runs: Seq<(Seq<char>, SgrStyle)>) -> nat
    decreases runs.len(),
{
    if runs.len() == 0 {
        0
    } else {
        runs_width(runs.drop_last()) + runs.last().0.len()
    }
}

/// The style of the `~` of a row past the end of the preview.
pub open spec fn faint_style() -> SgrStyle {
    SgrStyle { fg: TermColor::DimForeground, bg: TermColor::Background, add: 0, sub: 0 }
}

/// The row of the preview for line `f` of the renderer's output `out`,
/// `width` wide: the styled runs of the line (escape sequences applied by
/// `glow`, dropped by the fallback) and the number of spaces after them;
/// past the end, a faint `~`.
pub open spec fn preview_row_spec(out: Seq<Seq<char>>, f: int, width: int, glow: bool) -> (
    Seq<(Seq<char>, SgrStyle)>,
    int,
) {
    if 0 <= f < out.len() {
        if glow {
            let runs = ansi_line_spec(out[f], width);
            (
                runs,
                if runs_width(runs) < width {
                    width - runs_width(runs)
                } else {
                    0
                },
            )
        } else {
            let visible = clip(strip_escapes_from(out[f], 0), width);
            (seq![(visible, base_style())], width - visible.len())
        }
    } else if width > 0 {
        (seq![("~"@, faint_style())], width - 1)
    } else {
        (Seq::empty(), 0)
    }
}

/// A row of the preview panel: styled runs, then `fill` spaces in the
/// panel's style.
pub struct PreviewRow {
    pub runs: Vec<StyledRun>,
    pub fill: usize,
}

proof fn lemma_ansi_width(
    chars: Seq<char>,
    width: int,
    i: int,
    visible: int,
    st: SgrStyle,
    buf: Seq<char>,
    spans: Seq<(Seq<char>, SgrStyle)>,
)
    requires
        0 <= visible <= width,
        runs_width(spans) + buf.len() == visible,
    ensures
        runs_width(ansi_from(chars, width, i, visible, st, buf, spans)) <= width,
    decreases chars.len() - i,
{
    if i < 0 || i >= chars.len() || visible >= width {
        if buf.len() > 0 {
            assert(spans.push((buf, st)).drop_last() =~= spans);
        }
    } else if chars[i] == '\u{1b}' && i + 1 < chars.len() && chars[i + 1] == '[' {
        let j = crate::ansi::letter_from(chars, i + 2);
        crate::ansi::lemma_letter_from(chars, i + 2);
        let st2 = if j < chars.len() && chars[j] == 'm' {
            crate::ansi::apply_sgr_spec(chars.subrange(i + 2, j), st)
        } else {
            st
        };
        let next = if j < chars.len() {
            j + 1
        } else {
            chars.len() as int
        };
        if buf.len() > 0 {
            assert(spans.push((buf, st)).drop_last() =~= spans);
        }
        lemma_ansi_width(chars, width, next, visible, st2, Seq::empty(), flush_run(spans, buf, st));
    } else if chars[i] == '\n' || chars[i] == '\r' {
        lemma_ansi_width(chars, width, i + 1, visible, st, buf, spans);
    } else {
        lemma_ansi_width(chars, width, i + 1, visible + 1, st, buf.push(chars[i]), spans);
    }
}

/// The total length of the runs.
pub fn line_char_width(runs: &Vec<StyledRun>) -> (res: usize)
    requires
        runs_width(runs_view(runs@)) <= usize::MAX,
    ensures
        res == runs_width(runs_view(runs@)),
{
    let ghost all = runs_view(runs@);
    let mut total: usize = 0;
    let mut i: usize = 0;
    assert(all.take(0) =~= Seq::<(Seq<char>, SgrStyle)>::empty());
    while i < runs.len()
        invariant
            all == runs_view(runs@),
            i <= runs@.len(),
            runs_width(all) <= usize::MAX,
            total == runs_width(all.take(i as int)),
        decreases runs@.len() - i,
    {
        proof {
            assert(all.take(i + 1).drop_last() =~= all.take(i as int));
            lemma_runs_width_prefix(all, i + 1);
        }
        total = total + chars_of(runs[i].text.as_str()).len();
        i += 1;
    }
    assert(all.take(i as int) =~= all);
    total
}

proof fn lemma_runs_width_prefix(runs: Seq<(Seq<char>, SgrStyle)>, i: int)
    requires
        0 <= i <= runs.len(),
    ensures
        runs_width(runs.take(i)) <= runs_width(runs),
    decreases runs.len() - i,
{
    if i < runs.len() {
        lemma_runs_width_prefix(runs, i + 1);
        assert(runs.take(i + 1).drop_last() =~= runs.take(i));
    } else {
        assert(runs.take(i) =~= runs);
    }
}

/// The row of the preview for line `f` of the renderer's output `out`.
pub fn preview_row(out: &Vec<String>, f: usize, width: usize, backend: PreviewBackend) -> (res:
    PreviewRow)
    ensures
        (runs_view(res.runs@), res.fill as int) == preview_row_spec(
            lines_view(out@),
            f as int,
            width as int,
            backend == PreviewBackend::Glow,
        ),
{
    if f < out.len() {
        match backend {
            PreviewBackend::Glow => {
                let runs = ansi_to_line_clipped(out[f].as_str(), width);
                proof {
                    if width > 0 {
                        assert(runs_width(Seq::<(Seq<char>, SgrStyle)>::empty()) == 0);
                        lemma_ansi_width(
                            out@[f as int]@,
                            width as int,
                            0,
                            0,
                            base_style(),
                            Seq::empty(),
                            Seq::empty(),
                        );
                    }
                }
                let visible = line_char_width(&runs);
                let fill = if visible < width {
                    width - visible
                } else {
                    0
                };
                PreviewRow { runs, fill }
            },
            PreviewBackend::Fallback => {
                let visible = clip_to_char_width(
                    strip_ansi_escape_codes(out[f].as_str()).as_str(),
                    width,
                );
                let n = chars_of(visible.as_str()).len();
                let mut runs: Vec<StyledRun> = Vec::new();
                runs.push(StyledRun { text: visible, style: base_sgr_style() });
                let res = PreviewRow { runs, fill: width - n };
                assert(runs_view(res.runs@) =~= preview_row_spec(
                    lines_view(out@),
                    f as int,
                    width as int,
                    false,
                ).0);
                res
            },
        }
    } else {
        let mut runs: Vec<StyledRun> = Vec::new();
        let mut fill: usize = 0;
        if width > 0 {
            runs.push(
                StyledRun {
                    text: "~".to_owned(),
                    style: SgrStyle {
                        fg: TermColor::DimForeground,
                        bg: TermColor::Background,
                        add: 0,
                        sub: 0,
                    },
                },
            );
            fill = width - 1;
        }
        let res = PreviewRow { runs, fill };
        assert(runs_view(res.runs@) =~= preview_row_spec(
            lines_view(out@),
            f as int,
            width as int,
            backend == PreviewBackend::Glow,
        ).0);
        res
    }
}

impl Editor {
    /// The lines as the preview renders them.
    pub fn preview_source_lines(&self) -> (res: Vec<String>)
        ensures
            res@.len() == self@.lines.len(),
            forall|i: int|
                0 <= i < res@.len() ==> (#[trigger] res@[i])@ == preview_source_line(self@.lines[i]),
    {
        let mut out: Vec<String> = Vec::new();
        let mut i: usize = 0;
        while i < self.doc.lines.len()
            invariant
                i <= self@.lines.len(),
                self@.lines.len() == self.doc.lines@.len(),
                out@.len() == i,
                forall|k: int|
                    0 <= k < i ==> (#[trigger] out@[k])@ == preview_source_line(self@.lines[k]),
            decreases self.doc.lines@.len() - i,
        {
            let line = &self.doc.lines[i];
            let shown = match html_heading_to_markdown(line.as_str()) {
                Some(h) => h,
                None => line.clone(),
            };
            out.push(shown);
            i += 1;
        }
        out
    }

    /// The text handed to the renderer: the preview lines joined with
    /// `'\n'`.
    pub fn preview_source_text(&self) -> (res: String)
        ensures
            res@ == join_lines(Seq::new(self@.lines.len(), |i: int| preview_source_line(self@.lines[i]))),
    {
        let lines = self.preview_source_lines();
        let ghost want = Seq::new(self@.lines.len(), |i: int| preview_source_line(self@.lines[i]));
        assert(lines_view(lines@) =~= want);
        let mut out = String::new();
        let mut i: usize = 0;
        assert(want.take(0) =~= Seq::<Seq<char>>::empty());
        while i < lines.len()
            invariant
                i <= lines@.len(),
                lines_view(lines@) == want,
                out@ == join_lines(want.take(i as int)),
            decreases lines@.len() - i,
        {
            proof {
                assert(want.take(i + 1).drop_last() =~= want.take(i as int));
                assert(want.take(i + 1).last() == want[i as int]);
                assert(want[i as int] == lines@[i as int]@);
            }
            if i > 0 {
                push_char(&mut out, '\n');
            }
            push_str(&mut out, lines[i].as_str());
            proof {
                if i == 0 {
                    assert(want.take(1) =~= seq![want[0]]);
                    assert(out@ =~= join_lines(want.take(1)));
                }
            }
            i += 1;
        }
        assert(want.take(i as int) =~= want);
        out
    }

    /// The plain preview, `width` wide: each preview line clipped.
    pub fn render_fallback_preview(&self, width: usize) -> (res: Vec<String>)
        ensures
            res@.len() == self@.lines.len(),
            forall|i: int|
                0 <= i < res@.len() ==> (#[trigger] res@[i])@ == clip(
                    preview_source_line(self@.lines[i]),
                    width as int,
                ),
    {
        let lines = self.preview_source_lines();
        let mut out: Vec<String> = Vec::new();
        let mut i: usize = 0;
        while i < lines.len()
            invariant
                i <= lines@.len(),
                lines@.len() == self@.lines.len(),
                forall|k: int|
                    0 <= k < lines@.len() ==> (#[trigger] lines@[k])@ == preview_source_line(
                        self@.lines[k],
                    ),
                out@.len() == i,
                forall|k: int|
                    0 <= k < i ==> (#[trigger] out@[k])@ == clip(
                        preview_source_line(self@.lines[k]),
                        width as int,
                    ),
            decreases lines@.len() - i,
        {
            out.push(clip_to_char_width(lines[i].as_str(), width));
            i += 1;
        }
        out
    }

    /// The `text_height` rows of the preview panel, `width` wide, from the
    /// first visible line, made from the renderer's output `out`.
    pub fn build_preview_lines_for_view(
        &self,
        out: &Vec<String>,
        backend: PreviewBackend,
        text_height: usize,
        width: usize,
    ) -> (res: Vec<PreviewRow>)
        requires
            self@.offset.y + text_height <= usize::MAX,
        ensures
            res@.len() == text_height,
            forall|r: int|
                0 <= r < text_height ==> (runs_view((#[trigger] res@[r]).runs@), res@[r].fill as int)
                    == preview_row_spec(
                    lines_view(out@),
                    self@.offset.y + r,
                    width as int,
                    backend == PreviewBackend::Glow,
                ),
    {
        let mut rows: Vec<PreviewRow> = Vec::new();
        let mut r: usize = 0;
        while r < text_height
            invariant
                r <= text_height,
                self@.offset.y + text_height <= usize::MAX,
                rows@.len() == r,
                forall|k: int|
                    0 <= k < r ==> (runs_view((#[trigger] rows@[k]).runs@), rows@[k].fill as int)
                        == preview_row_spec(
                        lines_view(out@),
                        self@.offset.y + k,
                        width as int,
                        backend == PreviewBackend::Glow,
                    ),
            decreases text_height - r,
        {
            rows.push(preview_row(out, self.offset.y + r, width, backend));
            r += 1;
        }
        rows
    }
}

/// The message for a preview without `glow`.
pub open spec fn glow_missing_msg() -> Seq<char> {
    "Glow not found. Install glow to enable GitHub-style preview."@
}

/// The message for a failed `glow` run, `err` saying why.
pub open spec fn glow_failed_msg(err: Seq<char>) -> Seq<char> {
    "Glow preview unavailable: "@ + err + ". Using fallback."@
}

/// The preview to show: `glow`'s lines when it ran (`Some(Ok(..))`), else
/// the `fallback` lines; which renderer that is; and the error to report,
/// if any (`glow` not found when `glow` is `None`).
pub fn choose_preview(glow: Option<Result<Vec<String>, String>>, fallback: Vec<String>) -> (res: (
    Vec<String>,
    PreviewBackend,
    Option<String>,
))
    ensures
        match glow {
            Some(Ok(lines)) => res.0@ == lines@ && res.1 == PreviewBackend::Glow && res.2 is None,
            Some(Err(e)) => res.0@ == fallback@ && res.1 == PreviewBackend::Fallback
                && opt_string_view(res.2) == Some(glow_failed_msg(e@)),
            None => res.0@ == fallback@ && res.1 == PreviewBackend::Fallback && opt_string_view(res.2)
                == Some(glow_missing_msg()),
        },
{
    match glow {
        Some(Ok(lines)) => (lines, PreviewBackend::Glow, None),
        Some(Err(e)) => {
            let mut msg = "Glow preview unavailable: ".to_owned();
            push_str(&mut msg, e.as_str());
            push_str(&mut msg, ". Using fallback.");
            (fallback, PreviewBackend::Fallback, Some(msg))
        },
        None => (
            fallback,
            PreviewBackend::Fallback,
            Some("Glow not found. Install glow to enable GitHub-style preview.".to_owned()),
        ),
    }
}

/// Whether the preview drawn for width `cached_width` of the text at
/// revision `cached_revision` still serves width `width` of the text at
/// revision `revision`: only where both are the same.
pub fn preview_cache_is_current(width: usize, revision: u64, cached_width: usize, cached_revision: u64) -> (res: bool)
    ensures
        res == (width == cached_width && revision == cached_revision),
{
    width == cached_width && revision == cached_revision
}

/// The arguments that `glow` is run with to render the text, read from its
/// input, `width` columns wide in its dark style: `-s dark -w <width> -`.
pub fn glow_args(width: usize) -> (res: Vec<String>)
    ensures
        lines_view(res@) == seq!["-s"@, "dark"@, "-w"@, crate::markdown::decimal(width as nat), "-"@],
{
    let mut args: Vec<String> = Vec::new();
    args.push("-s".to_owned());
    args.push("dark".to_owned());
    args.push("-w".to_owned());
    args.push(crate::markdown::decimal_string(width));
    args.push("-".to_owned());
    assert(lines_view(args@) =~= seq!["-s"@, "dark"@, "-w"@, crate::markdown::decimal(width as nat), "-"@]);
    args
}

/// Why `glow` failed: what it wrote on its error output, trimmed, or else
/// `exit status ` and the exit status `status`.
pub fn glow_failure_detail(stderr: &str, status: &str) -> (res: String)
    ensures
        crate::textfmt::trim(stderr@).len() > 0 ==> res@ == crate::textfmt::trim(stderr@),
        crate::textfmt::trim(stderr@).len() == 0 ==> res@ == "exit status "@ + status@,
{
    let trimmed = crate::textfmt::trim_text(stderr);
    if !trimmed.as_str().is_empty() {
        return trimmed;
    }
    let mut msg = "exit status ".to_owned();
    push_str(&mut msg, status);
    msg
}

/// The lines of `text` as `str::lines` reads them: cut at each `'\n'`, a
/// `'\r'` right before a `'\n'` dropped, and no empty line after a final
/// `'\n'`; a last line that no `'\n'` ends keeps a final `'\r'`.
pub open spec fn text_lines(text: Seq<char>) -> Seq<Seq<char>> {
    let parts = crate::document::split_lines(text);
    let kept = if parts.len() > 0 && parts.last().len() == 0 {
        parts.drop_last()
    } else {
        parts
    };
    Seq::new(
        kept.len(),
        |k: int|
            if k + 1 < parts.len() && kept[k].len() > 0 && kept[k].last() == '\r' {
                kept[k].drop_last()
            } else {
                kept[k]
            },
    )
}

/// The lines of `glow`'s output `text`.
pub fn output_lines(text: &str) -> (res: Vec<String>)
    ensures
        lines_view(res@) == text_lines(text@),
{
    let doc = crate::document::Document::from_text(text, String::new());
    let parts = doc.lines;
    let ghost whole = crate::document::split_lines(text@);
    assert(lines_view(parts@) == whole);
    let n = parts.len();
    let keep = if n > 0 && parts[n - 1].as_str().is_empty() {
        n - 1
    } else {
        n
    };
    let ghost kept = if whole.len() > 0 && whole.last().len() == 0 {
        whole.drop_last()
    } else {
        whole
    };
    assert(keep == kept.len());
    let mut out: Vec<String> = Vec::new();
    let mut i: usize = 0;
    while i < keep
        invariant
            keep <= parts@.len(),
            i <= keep,
            lines_view(parts@) == whole,
            whole == crate::document::split_lines(text@),
            kept == (if whole.len() > 0 && whole.last().len() == 0 {
                whole.drop_last()
            } else {
                whole
            }),
            keep == kept.len(),
            n == whole.len(),
            forall|k: int| 0 <= k < keep ==> kept[k] == whole[k],
            lines_view(out@) == text_lines(text@).take(i as int),
        decreases keep - i,
    {
        let cs = chars_of(parts[i].as_str());
        let line = if i + 1 < n && cs.len() > 0 && cs[cs.len() - 1] == '\r' {
            crate::text::string_from_chars(cs.as_slice(), 0, cs.len() - 1)
        } else {
            parts[i].clone()
        };
        proof {
            assert(kept[i as int] == parts@[i as int]@);
            if i + 1 < n && cs@.len() > 0 && cs@.last() == '\r' {
                assert(line@ =~= cs@.drop_last());
            }
        }
        proof {
            assert(text_lines(text@).len() == keep);
            assert(text_lines(text@)[i as int] == line@);
        }
        let ghost before = out@;
        out.push(line);
        assert(lines_view(out@) =~= lines_view(before).push(line@));
        assert(lines_view(out@) =~= text_lines(text@).take(i + 1));
        i += 1;
    }
    assert(text_lines(text@).take(i as int) =~= text_lines(text@));
    out
}

impl Editor {
    /// Reports a change of the preview's error: a new error is shown on the
    /// status line; returns the error to remember.
    pub fn report_preview_error(&mut self, previous: Option<String>, error: Option<String>) -> (res:
        Option<String>)
        ensures
            match (previous, error) {
                (Some(p), Some(e)) => if p@ == e@ {
                    final(self)@ == old(self)@ && opt_string_view(res) == Some(p@)
                } else {
                    final(self)@ == crate::editor::with_status(old(self)@, e@) && opt_string_view(res)
                        == Some(e@)
                },
                (None, Some(e)) => final(self)@ == crate::editor::with_status(old(self)@, e@)
                    && opt_string_view(res) == Some(e@),
                (_, None) => final(self)@ == old(self)@ && res is None,
            },
    {
        let same = match (&previous, &error) {
            (Some(p), Some(e)) => *p == *e,
            (None, None) => true,
            _ => false,
        };
        if same {
            return previous;
        }
        match &error {
            Some(e) => self.set_status(e.clone()),
            None => {},
        }
        error
    }
}

/// A preview line made from `glow`'s output shows at most `width`
/// characters.
pub proof fn law_preview_line_fits(text: Seq<char>, width: int)
    requires
        width >= 0,
    ensures
        runs_width(ansi_line_spec(text, width)) <= width,
{
    if width > 0 {
        lemma_ansi_width(text, width, 0, 0, base_style(), Seq::empty(), Seq::empty());
    }
}

} // verus!
