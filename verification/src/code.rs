//! Code files: syntax highlighting of the visible rows through syntect,
//! the choice between markdown, code and plain rows, and the visible window
//! of a highlighted line.
use vstd::prelude::*;

use crate::document::{min_int, Position};
use crate::editor::{selection_of, Editor, EditorView};
use crate::rows::{group_runs, in_range, look_of, row_spec, segments_view, EditorRow, RowView, Segment, TextLook};
use crate::markdown::MdStyle;
use crate::selection::spec_selection_range_for_line;
use crate::text::{chars_of, push_char};
use crate::textfmt::{is_markdown_path, markdown_path, path_extension, slash_path};
use crate::document::path_file_name;
use crate::rows::{gutter_text, right_aligned};
use crate::markdown::decimal;
use crate::layout::sat_sub;
use crate::editor::opt_string_view;
use crate::textfmt::{file_name_of, path_extension_of};
use syntect::easy::HighlightLines;
use syntect::highlighting::Theme;
use syntect::parsing::{SyntaxReference, SyntaxSet};

verus! {

/// A piece of a highlighted line: its colour, its font style (bold 1,
/// underline 2, italic 4) and its text.
pub struct CodeToken {
    pub r: u8,
    pub g: u8,
    pub b: u8,
    pub font: u8,
    pub text: String,
}

/// The text of the tokens `t`, one after the other.
pub open spec fn tokens_text(t: Seq<CodeToken>) -> Seq<char>
    decreases t.len(),
{
    if t.len() == 0 {
        Seq::empty()
    } else {
        tokens_text(t.drop_last()) + t.last().text@
    }
}

/// The colour and font style of each character of the tokens `t`.
pub open spec fn token_styles(t: Seq<CodeToken>) -> Seq<(u8, u8, u8, u8)>
    decreases t.len(),
{
    if t.len() == 0 {
        Seq::empty()
    } else {
        let last = t.last();
        token_styles(t.drop_last()) + Seq::new(last.text@.len(), |k: int| (last.r, last.g, last.b, last.font))
    }
}

/// There is one style for each character of the tokens.
pub proof fn lemma_token_styles_len(t: Seq<CodeToken>)
    ensures
        token_styles(t).len() == tokens_text(t).len(),
    decreases t.len(),
{
    if t.len() > 0 {
        lemma_token_styles_len(t.drop_last());
    }
}

/// The look of a code character of colour and font `c`, selected or not.
pub open spec fn code_look(c: (u8, u8, u8, u8), selected: bool) -> TextLook {
    if selected {
        TextLook::SelectedCode { font: c.3 }
    } else {
        TextLook::Code { r: c.0, g: c.1, b: c.2, font: c.3 }
    }
}

/// The visible part of the highlighted line made of the tokens `t`, from
/// column `offset_x`, at most `width` characters, cut into runs of one look
/// (the columns in `sel` selected), and the number of characters shown.
pub open spec fn code_window_spec(t: Seq<CodeToken>, offset_x: int, width: int, sel: Option<(int, int)>) -> (
    Seq<(Seq<char>, TextLook)>,
    int,
) {
    let text = tokens_text(t);
    let styles = token_styles(t);
    let len = text.len() as int;
    let start = min_int(offset_x, len);
    let end = min_int(start + width, len);
    let looks = Seq::new((end - start) as nat, |k: int| code_look(styles[start + k], in_range(sel, start + k)));
    (group_runs(text.subrange(start, end), looks), end - start)
}

/// The visible part of `line` drawn as plain text, from column `offset_x`,
/// at most `width` characters, cut into runs of one look (the columns in
/// `sel` selected), and the number of characters shown.
pub open spec fn plain_window_spec(line: Seq<char>, offset_x: int, width: int, sel: Option<(int, int)>) -> (
    Seq<(Seq<char>, TextLook)>,
    int,
) {
    let len = line.len() as int;
    let start = min_int(offset_x, len);
    let end = min_int(start + width, len);
    let looks = Seq::new((end - start) as nat, |k: int| look_of(MdStyle::Normal, in_range(sel, start + k)));
    (group_runs(line.subrange(start, end), looks), end - start)
}

/// Whether `k` is in the range `sel`.
fn selected_at(sel: Option<(usize, usize)>, k: usize) -> (res: bool)
    ensures
        res == in_range(opt_range(sel), k as int),
{
    match sel {
        Some((s, e)) => s <= k && k < e,
        None => false,
    }
}

/// The range `sel` in integers.
pub open spec fn opt_range(sel: Option<(usize, usize)>) -> Option<(int, int)> {
    match sel {
        Some((s, e)) => Some((s as int, e as int)),
        None => None,
    }
}

/// `chars` cut into maximal runs of one look, `looks` giving the look of
/// each character.
pub fn group_segments(chars: &Vec<char>, looks: &Vec<TextLook>) -> (res: Vec<Segment>)
    requires
        chars@.len() == looks@.len(),
    ensures
        segments_view(res@) == group_runs(chars@, looks@),
{
    let mut segments: Vec<Segment> = Vec::new();
    let n = chars.len();
    if n == 0 {
        assert(segments_view(segments@) =~= Seq::<(Seq<char>, TextLook)>::empty());
        return segments;
    }
    let mut current = looks[0];
    let mut segment = String::new();
    push_char(&mut segment, chars[0]);
    proof {
        assert(chars@.take(1).drop_last() =~= Seq::<char>::empty());
        assert(looks@.take(1).drop_last() =~= Seq::<TextLook>::empty());
        assert(segment@ =~= seq![chars@[0]]);
        assert(chars@.take(1).last() == chars@[0]);
        assert(looks@.take(1).last() == current);
        assert(group_runs(chars@.take(1).drop_last(), looks@.take(1).drop_last()).len() == 0);
        assert(group_runs(chars@.take(1), looks@.take(1)) == seq![(segment@, current)]);
    }
    let mut idx: usize = 1;
    while idx < n
        invariant
            0 < idx <= n,
            n == chars@.len(),
            chars@.len() == looks@.len(),
            segments_view(segments@) + seq![(segment@, current)] == group_runs(
                chars@.take(idx as int),
                looks@.take(idx as int),
            ),
        decreases n - idx,
    {
        let look = looks[idx];
        proof {
            assert(chars@.take(idx + 1).drop_last() =~= chars@.take(idx as int));
            assert(looks@.take(idx + 1).drop_last() =~= looks@.take(idx as int));
            assert(chars@.take(idx + 1).last() == chars@[idx as int]);
            assert(looks@.take(idx + 1).last() == look);
        }
        let ghost prev = segments_view(segments@) + seq![(segment@, current)];
        if look == current {
            push_char(&mut segment, chars[idx]);
            assert(segments_view(segments@) + seq![(segment@, current)] =~= prev.update(
                prev.len() - 1,
                (prev.last().0.push(chars@[idx as int]), look),
            ));
        } else {
            let done = Segment { text: segment, look: current };
            let ghost before = segments@;
            segments.push(done);
            assert(segments_view(segments@) =~= segments_view(before).push((done.text@, done.look)));
            segment = String::new();
            push_char(&mut segment, chars[idx]);
            current = look;
            assert(segments_view(segments@) + seq![(segment@, current)] =~= prev.push(
                (seq![chars@[idx as int]], look),
            ));
        }
        idx += 1;
    }
    let ghost before = segments@;
    segments.push(Segment { text: segment, look: current });
    proof {
        assert(chars@.take(n as int) =~= chars@);
        assert(looks@.take(n as int) =~= looks@);
        assert(segments_view(segments@) =~= segments_view(before) + seq![(segment@, current)]);
    }
    segments
}

/// The visible part of `line` drawn as plain text, from column `offset_x`,
/// at most `width` characters, in runs of one look, and the number of
/// characters shown.
pub fn plain_spans_for_window(line: &str, offset_x: usize, width: usize, selected_range: Option<(usize, usize)>) -> (res: (
    Vec<Segment>,
    usize,
))
    ensures
        ({
            let w = plain_window_spec(line@, offset_x as int, width as int, opt_range(selected_range));
            segments_view(res.0@) == w.0 && res.1 as int == w.1
        }),
{
    let cs = chars_of(line);
    let len = cs.len();
    let start = if offset_x < len {
        offset_x
    } else {
        len
    };
    let end = if width >= len - start {
        len
    } else {
        start + width
    };
    let ghost sel = opt_range(selected_range);
    let mut window: Vec<char> = Vec::new();
    let mut looks: Vec<TextLook> = Vec::new();
    let mut k = start;
    while k < end
        invariant
            start <= k <= end <= len,
            len == cs@.len(),
            cs@ == line@,
            window@ == cs@.subrange(start as int, k as int),
            looks@ == Seq::new((k - start) as nat, |j: int| look_of(MdStyle::Normal, in_range(sel, start + j))),
            sel == opt_range(selected_range),
        decreases end - k,
    {
        window.push(cs[k]);
        let look = if selected_at(selected_range, k) {
            TextLook::SelectedPlain
        } else {
            TextLook::Plain
        };
        looks.push(look);
        k += 1;
        assert(window@ =~= cs@.subrange(start as int, k as int));
        assert(looks@ =~= Seq::new((k - start) as nat, |j: int| look_of(MdStyle::Normal, in_range(sel, start + j))));
    }
    let segs = group_segments(&window, &looks);
    (segs, end - start)
}

/// The visible part of the highlighted line made of `tokens`, from column
/// `offset_x`, at most `width` characters, in runs of one look, and the
/// number of characters shown.
pub fn code_spans_for_window(
    tokens: &Vec<CodeToken>,
    offset_x: usize,
    width: usize,
    selected_range: Option<(usize, usize)>,
) -> (res: (Vec<Segment>, usize))
    ensures
        ({
            let w = code_window_spec(tokens@, offset_x as int, width as int, opt_range(selected_range));
            segments_view(res.0@) == w.0 && res.1 as int == w.1
        }),
{
    let mut chars: Vec<char> = Vec::new();
    let mut styles: Vec<(u8, u8, u8, u8)> = Vec::new();
    let mut i: usize = 0;
    while i < tokens.len()
        invariant
            i <= tokens@.len(),
            chars@ == tokens_text(tokens@.take(i as int)),
            styles@ == token_styles(tokens@.take(i as int)),
        decreases tokens@.len() - i,
    {
        let t = &tokens[i];
        let cs = chars_of(t.text.as_str());
        let ghost c0 = chars@;
        let ghost s0 = styles@;
        let mut j: usize = 0;
        while j < cs.len()
            invariant
                j <= cs@.len(),
                cs@ == t.text@,
                chars@ == c0 + cs@.take(j as int),
                styles@ == s0 + Seq::new(j as nat, |k: int| (t.r, t.g, t.b, t.font)),
            decreases cs@.len() - j,
        {
            chars.push(cs[j]);
            styles.push((t.r, t.g, t.b, t.font));
            j += 1;
            assert(chars@ =~= c0 + cs@.take(j as int));
            assert(styles@ =~= s0 + Seq::new(j as nat, |k: int| (t.r, t.g, t.b, t.font)));
        }
        proof {
            assert(tokens@.take(i + 1).drop_last() =~= tokens@.take(i as int));
            assert(tokens@.take(i + 1).last() == *t);
            assert(cs@.take(j as int) =~= cs@);
            assert(chars@ =~= tokens_text(tokens@.take(i + 1)));
            assert(styles@ =~= token_styles(tokens@.take(i + 1)));
        }
        i += 1;
    }
    assert(tokens@.take(i as int) =~= tokens@);
    proof {
        lemma_token_styles_len(tokens@);
    }
    let len = chars.len();
    let start = if offset_x < len {
        offset_x
    } else {
        len
    };
    let end = if width >= len - start {
        len
    } else {
        start + width
    };
    let ghost sel = opt_range(selected_range);
    let mut window: Vec<char> = Vec::new();
    let mut looks: Vec<TextLook> = Vec::new();
    let mut k = start;
    while k < end
        invariant
            start <= k <= end <= len,
            len == chars@.len(),
            chars@.len() == styles@.len(),
            window@ == chars@.subrange(start as int, k as int),
            looks@ == Seq::new((k - start) as nat, |j: int| code_look(styles@[start + j], in_range(sel, start + j))),
            sel == opt_range(selected_range),
        decreases end - k,
    {
        window.push(chars[k]);
        let st = styles[k];
        let look = if selected_at(selected_range, k) {
            TextLook::SelectedCode { font: st.3 }
        } else {
            TextLook::Code { r: st.0, g: st.1, b: st.2, font: st.3 }
        };
        looks.push(look);
        k += 1;
        assert(window@ =~= chars@.subrange(start as int, k as int));
        assert(looks@ =~= Seq::new((k - start) as nat, |j: int| code_look(styles@[start + j], in_range(sel, start + j))));
    }
    let segs = group_segments(&window, &looks);
    (segs, end - start)
}

/// syntect's set of syntaxes.
#[verifier::external_type_specification]
#[verifier::external_body]
pub struct ExSyntaxSet(SyntaxSet);

/// One syntax of syntect's set.
#[verifier::external_type_specification]
#[verifier::external_body]
pub struct ExSyntaxReference(SyntaxReference);

/// A syntect colour theme.
#[verifier::external_type_specification]
#[verifier::external_body]
pub struct ExTheme(Theme);

/// syntect's highlighter of successive lines.
#[verifier::external_type_specification]
#[verifier::external_body]
pub struct ExHighlightLines<'a>(HighlightLines<'a>);

/// The name of the bundled syntax (of `SyntaxSet::load_defaults_newlines`)
/// that `find_syntax_by_token` finds for `token`, if any.
pub uninterp spec fn bundled_syntax_by_token(token: Seq<char>) -> Option<Seq<char>>;

/// The name of the bundled syntax that `find_syntax_by_extension` finds for
/// the extension `ext`, if any.
pub uninterp spec fn bundled_syntax_by_extension(ext: Seq<char>) -> Option<Seq<char>>;

/// The name of the bundled syntax that `find_syntax_by_first_line` finds for
/// a file whose first line is `line`, if any.
pub uninterp spec fn bundled_syntax_by_first_line(line: Seq<char>) -> Option<Seq<char>>;

/// Whether `ThemeSet::load_defaults` has a theme called `name`.
pub uninterp spec fn bundled_theme_exists(name: Seq<char>) -> bool;

/// syntect's bundled syntaxes, for lines given without their line break:
/// calls `SyntaxSet::load_defaults_newlines`.
#[verifier::external_body]
fn default_syntaxes() -> SyntaxSet {
    SyntaxSet::load_defaults_newlines()
}

/// The bundled theme called `name`, if there is one: calls
/// `ThemeSet::load_defaults` and takes that entry of its `themes`.
#[verifier::external_body]
fn theme_named(name: &str) -> (r: Option<Theme>)
    ensures
        r is Some <==> bundled_theme_exists(name@),
{
    syntect::highlighting::ThemeSet::load_defaults().themes.remove(name)
}

/// The first bundled theme, with its name, if there is any: calls
/// `ThemeSet::load_defaults` and takes the first entry of its `themes`.
/// Which entry comes first (the least name) is not stated.
#[verifier::external_body]
fn first_theme() -> (r: Option<(String, Theme)>)
    ensures
        r matches Some(p) ==> bundled_theme_exists(p.0@),
        r is None ==> forall|n: Seq<char>| !#[trigger] bundled_theme_exists(n),
{
    syntect::highlighting::ThemeSet::load_defaults().themes.into_iter().next()
}

/// The name of the syntax that `token` (a file name or extension) names:
/// calls `SyntaxSet::find_syntax_by_token` on the bundled set that `code`
/// always holds.
#[verifier::external_body]
fn syntax_by_token(code: &CodeHighlighting, token: &str) -> (r: Option<String>)
    ensures
        opt_string_view(r) == bundled_syntax_by_token(token@),
{
    code.syntaxes.find_syntax_by_token(token).map(|s| s.name.clone())
}

/// The name of the syntax of files with extension `ext`: calls
/// `SyntaxSet::find_syntax_by_extension` on the bundled set that `code`
/// always holds.
#[verifier::external_body]
fn syntax_by_extension(code: &CodeHighlighting, ext: &str) -> (r: Option<String>)
    ensures
        opt_string_view(r) == bundled_syntax_by_extension(ext@),
{
    code.syntaxes.find_syntax_by_extension(ext).map(|s| s.name.clone())
}

/// The name of the syntax that a file's first line `line` shows (a shebang,
/// a mode line): calls `SyntaxSet::find_syntax_by_first_line` on the bundled
/// set that `code` always holds.
#[verifier::external_body]
fn syntax_by_first_line(code: &CodeHighlighting, line: &str) -> (r: Option<String>)
    ensures
        opt_string_view(r) == bundled_syntax_by_first_line(line@),
{
    code.syntaxes.find_syntax_by_first_line(line).map(|s| s.name.clone())
}

/// The syntax called `name` in `set`: calls `SyntaxSet::find_syntax_by_name`.
#[verifier::external_body]
fn syntax_named<'a>(set: &'a SyntaxSet, name: &str) -> Option<&'a SyntaxReference> {
    set.find_syntax_by_name(name)
}

/// A highlighter for `syntax` in `theme`, at the start of a file: calls
/// `HighlightLines::new`.
#[verifier::external_body]
fn new_highlighter<'a>(syntax: &SyntaxReference, theme: &'a Theme) -> HighlightLines<'a> {
    HighlightLines::new(syntax, theme)
}

/// Highlights the next line of the file: calls
/// `HighlightLines::highlight_line`, each piece as its foreground colour,
/// its font style bits and its text; none where syntect reports an error.
/// The colours depend on the lines highlighted before, which the
/// highlighter keeps to itself, so they are not stated; syntect's
/// documentation states that the pieces, one after the other, make the
/// line.
#[verifier::external_body]
fn highlight_line(h: &mut HighlightLines, line: &str, set: &SyntaxSet) -> (r: Option<Vec<CodeToken>>)
    ensures
        r matches Some(t) ==> tokens_text(t@) == line@,
{
    match h.highlight_line(line, set) {
        Ok(pieces) => Some(
            pieces.into_iter().map(|(st, text)| CodeToken {
                r: st.foreground.r,
                g: st.foreground.g,
                b: st.foreground.b,
                font: st.font_style.bits(),
                text: text.to_owned(),
            }).collect(),
        ),
        Err(_) => None,
    }
}

/// What code highlighting needs: syntect's bundled syntaxes and a colour
/// theme with its name (none where no bundled theme could be had).
pub struct CodeHighlighting {
    syntaxes: SyntaxSet,
    theme: Option<(String, Theme)>,
}

impl CodeHighlighting {
    /// The name of the theme held, if any.
    pub closed spec fn theme_name(&self) -> Option<Seq<char>> {
        match self.theme {
            Some(p) => Some(p.0@),
            None => None,
        }
    }

    /// syntect's bundled syntaxes, and its `base16-ocean.dark` theme, else
    /// `base16-eighties.dark`, else the first bundled theme; no theme where
    /// none is bundled.
    pub fn load() -> (res: CodeHighlighting)
        ensures
            bundled_theme_exists("base16-ocean.dark"@) ==> res.theme_name() == Some("base16-ocean.dark"@),
            !bundled_theme_exists("base16-ocean.dark"@) && bundled_theme_exists("base16-eighties.dark"@)
                ==> res.theme_name() == Some("base16-eighties.dark"@),
            !bundled_theme_exists("base16-ocean.dark"@) && !bundled_theme_exists("base16-eighties.dark"@)
                ==> (res.theme_name() matches Some(n) ==> bundled_theme_exists(n)),
            res.theme_name() is None <==> forall|n: Seq<char>| !#[trigger] bundled_theme_exists(n),
    {
        let theme = match theme_named("base16-ocean.dark") {
            Some(t) => Some(("base16-ocean.dark".to_owned(), t)),
            None => match theme_named("base16-eighties.dark") {
                Some(t) => Some(("base16-eighties.dark".to_owned(), t)),
                None => first_theme(),
            },
        };
        CodeHighlighting { syntaxes: default_syntaxes(), theme }
    }
}

/// The columns of line `f` that the selection of `v` covers, if any.
pub open spec fn line_selection(v: EditorView, f: int) -> Option<(int, int)> {
    match selection_of(v) {
        Some(s) => spec_selection_range_for_line(s, f, v.lines[f].len() as int),
        None => None,
    }
}

/// The row of buffer line `f` of a code or plain file: the line number
/// right-aligned and a space; the visible part of the line, in the colours
/// of the pieces `tokens` where syntect gave them, else plain; spaces to the
/// width. Past the last line, the row is blank.
pub open spec fn code_row_spec(v: EditorView, f: int, gutter: int, body_width: int, tokens: Option<Seq<CodeToken>>) -> RowView {
    let number = right_aligned(decimal((f + 1) as nat), sat_sub(gutter, 1)) + " "@;
    let current = f == v.cursor.y;
    if 0 <= f < v.lines.len() {
        let w = match tokens {
            Some(t) => code_window_spec(t, v.offset.x as int, body_width, line_selection(v, f)),
            None => plain_window_spec(v.lines[f], v.offset.x as int, body_width, line_selection(v, f)),
        };
        RowView { gutter: number, current, segments: w.0, fill: body_width - w.1 }
    } else {
        RowView { gutter: number, current, segments: Seq::empty(), fill: body_width }
    }
}

/// The pieces as plain values, if any.
pub open spec fn opt_tokens(t: Option<Vec<CodeToken>>) -> Option<Seq<CodeToken>> {
    match t {
        Some(v) => Some(v@),
        None => None,
    }
}

/// Whether `row` is the row of buffer line `f` of a code file: drawn plain,
/// or in the colours of some pieces that make the line, as syntect gave
/// them.
pub open spec fn code_row_ok(v: EditorView, f: int, gutter: int, body_width: int, row: RowView) -> bool {
    ||| row == code_row_spec(v, f, gutter, body_width, None)
    ||| exists|t: Seq<CodeToken>|
        #[trigger] tokens_text(t) == v.lines[f] && row == code_row_spec(v, f, gutter, body_width, Some(t))
}

/// The name of the syntax of a file at the `/`-separated path `p` holding
/// `lines`: the one its file name names, else the one of its extension, else
/// the one its first line shows.
pub open spec fn syntax_for(p: Seq<char>, lines: Seq<Seq<char>>) -> Option<Seq<char>> {
    let by_first = if lines.len() > 0 {
        bundled_syntax_by_first_line(lines[0])
    } else {
        None
    };
    let by_ext = match path_extension_of(p) {
        Some(e) => match bundled_syntax_by_extension(e) {
            Some(s) => Some(s),
            None => by_first,
        },
        None => by_first,
    };
    match file_name_of(p) {
        Some(n) => match bundled_syntax_by_token(n) {
            Some(s) => Some(s),
            None => by_ext,
        },
        None => by_ext,
    }
}

impl Editor {
    /// Whether the buffer is drawn as markdown: a buffer without a path is,
    /// and one whose path has a markdown extension.
    pub fn uses_markdown_highlighting(&self) -> (res: bool)
        ensures
            self@.file_path is None ==> res,
            self@.file_path matches Some(p) ==> (slash_path(p) ==> res == markdown_path(p)),
    {
        match &self.doc.file_path {
            None => true,
            Some(p) => is_markdown_path(p.as_str()),
        }
    }

    /// The name of the syntax of the buffer's file: the one its file name
    /// names, else the one of its extension, else the one its first line
    /// shows; none for a buffer without a path. Stated for a path that every
    /// platform reads alike.
    pub fn code_syntax(&self, code: &CodeHighlighting) -> (res: Option<String>)
        ensures
            self@.file_path is None ==> res is None,
            self@.file_path matches Some(p) ==> (slash_path(p) ==> opt_string_view(res) == syntax_for(
                p,
                self@.lines,
            )),
    {
        let path = match &self.doc.file_path {
            None => return None,
            Some(p) => p,
        };
        let name = path_file_name(path.as_str());
        match &name {
            Some(n) => match syntax_by_token(code, n.as_str()) {
                Some(s) => return Some(s),
                None => {},
            },
            None => {},
        }
        let ext = path_extension(path.as_str());
        match &ext {
            Some(e) => match syntax_by_extension(code, e.as_str()) {
                Some(s) => return Some(s),
                None => {},
            },
            None => {},
        }
        match self.doc.line(0) {
            Some(first) => syntax_by_first_line(code, first.as_str()),
            None => None,
        }
    }

    /// The row of buffer line `f`, `line`, of a code or plain file: in the
    /// colours of `tokens`, the pieces that syntect gave for the line, or
    /// plain where there are none.
    pub fn code_row(&self, f: usize, line: &str, tokens: Option<Vec<CodeToken>>, gutter: usize, body_width: usize) -> (res: EditorRow)
        requires
            f < usize::MAX,
            f < self@.lines.len(),
            line@ == self@.lines[f as int],
            tokens matches Some(t) ==> tokens_text(t@) == line@,
        ensures
            res@ == code_row_spec(self@, f as int, gutter as int, body_width as int, opt_tokens(tokens)),
    {
        let number = gutter_text(f + 1, gutter.saturating_sub(1));
        let current = f == self.cursor.y;
        let len = chars_of(line).len();
        let sel = self.selection_range_for_line(f, len);
        assert(opt_range(sel) == line_selection(self@, f as int));
        let (segments, rendered) = match &tokens {
            Some(t) => code_spans_for_window(t, self.offset.x, body_width, sel),
            None => plain_spans_for_window(line, self.offset.x, body_width, sel),
        };
        EditorRow { gutter: number, current, segments, fill: body_width - rendered }
    }

    /// The blank row of `f`, a row past the last line of a code or plain
    /// file.
    fn blank_row(&self, f: usize, gutter: usize, body_width: usize) -> (res: EditorRow)
        requires
            f < usize::MAX,
            f >= self@.lines.len(),
        ensures
            res@ == code_row_spec(self@, f as int, gutter as int, body_width as int, None),
    {
        let number = gutter_text(f + 1, gutter.saturating_sub(1));
        let res = EditorRow { gutter: number, current: f == self.cursor.y, segments: Vec::new(), fill: body_width };
        assert(segments_view(res.segments@) =~= Seq::<(Seq<char>, TextLook)>::empty());
        res
    }

    /// The `text_height` rows of the editor panel for a code file of the
    /// syntax called `syntax`, from the first visible line: each line
    /// highlighted by syntect after the lines above it (drawn plain where
    /// syntect fails, or where the syntax or a theme is missing).
    pub fn build_code_editor_lines(
        &self,
        code: &CodeHighlighting,
        syntax: &str,
        text_height: usize,
        gutter: usize,
        body_width: usize,
    ) -> (res: Vec<EditorRow>)
        requires
            self@.offset.y + text_height < usize::MAX,
        ensures
            res@.len() == text_height,
            forall|r: int|
                0 <= r < text_height ==> code_row_ok(
                    self@,
                    self@.offset.y + r,
                    gutter as int,
                    body_width as int,
                    (#[trigger] res@[r])@,
                ),
    {
        let n = self.doc.line_count();
        let mut highlighter = match (&code.theme, syntax_named(&code.syntaxes, syntax)) {
            (Some(theme), Some(reference)) => Some(new_highlighter(reference, &theme.1)),
            _ => None,
        };
        // The lines above the window are fed to the highlighter first, until
        // it fails.
        let mut i: usize = 0;
        let mut going = true;
        while going && i < self.offset.y && i < n
            invariant
                i <= n,
                n == self@.lines.len(),
            decreases n - i,
        {
            let ok = match &mut highlighter {
                Some(h) => highlight_line(h, self.doc.lines[i].as_str(), &code.syntaxes).is_some(),
                None => false,
            };
            going = ok;
            i += 1;
        }
        let mut rows: Vec<EditorRow> = Vec::new();
        let mut r: usize = 0;
        while r < text_height
            invariant
                r <= text_height,
                self@.offset.y + text_height < usize::MAX,
                n == self@.lines.len(),
                rows@.len() == r,
                forall|k: int|
                    0 <= k < r ==> code_row_ok(
                        self@,
                        self@.offset.y + k,
                        gutter as int,
                        body_width as int,
                        (#[trigger] rows@[k])@,
                    ),
            decreases text_height - r,
        {
            let f = self.offset.y + r;
            let row = if f < n {
                let line = self.doc.lines[f].as_str();
                let tokens = match &mut highlighter {
                    Some(h) => highlight_line(h, line, &code.syntaxes),
                    None => None,
                };
                let ghost given = opt_tokens(tokens);
                let row = self.code_row(f, line, tokens, gutter, body_width);
                proof {
                    if let Some(t) = given {
                        assert(tokens_text(t) == self@.lines[f as int]);
                    }
                }
                row
            } else {
                self.blank_row(f, gutter, body_width)
            };
            rows.push(row);
            r += 1;
        }
        rows
    }

    /// The `text_height` rows of the editor panel, from the first visible
    /// line: markdown rows for a markdown buffer (or one without a path),
    /// else rows of code highlighted by syntect where it knows the file's
    /// syntax, else plain rows.
    pub fn build_editor_lines(&self, code: &CodeHighlighting, text_height: usize, gutter: usize, body_width: usize) -> (res: Vec<
        EditorRow,
    >)
        requires
            self@.offset.y + text_height < usize::MAX,
        ensures
            res@.len() == text_height,
            self@.file_path is None ==> forall|r: int|
                0 <= r < text_height ==> (#[trigger] res@[r])@ == row_spec(
                    self@,
                    self@.offset.y + r,
                    gutter as int,
                    body_width as int,
                ),
            self@.file_path matches Some(p) ==> (slash_path(p) ==> (markdown_path(p) ==> forall|r: int|
                0 <= r < text_height ==> (#[trigger] res@[r])@ == row_spec(
                    self@,
                    self@.offset.y + r,
                    gutter as int,
                    body_width as int,
                ))),
            self@.file_path matches Some(p) ==> (slash_path(p) ==> (!markdown_path(p) && syntax_for(p, self@.lines)
                is None ==> forall|r: int|
                0 <= r < text_height ==> (#[trigger] res@[r])@ == code_row_spec(
                    self@,
                    self@.offset.y + r,
                    gutter as int,
                    body_width as int,
                    None,
                ))),
            self@.file_path matches Some(p) ==> (slash_path(p) ==> (!markdown_path(p) ==> forall|r: int|
                0 <= r < text_height ==> code_row_ok(
                    self@,
                    self@.offset.y + r,
                    gutter as int,
                    body_width as int,
                    (#[trigger] res@[r])@,
                ))),
    {
        if self.uses_markdown_highlighting() {
            return self.build_markdown_editor_lines(text_height, gutter, body_width);
        }
        match self.code_syntax(code) {
            Some(syntax) => self.build_code_editor_lines(code, syntax.as_str(), text_height, gutter, body_width),
            None => self.build_plain_editor_lines(text_height, gutter, body_width),
        }
    }

    /// The `text_height` rows of the editor panel drawn as plain text, from
    /// the first visible line; blank rows past the last line.
    pub fn build_plain_editor_lines(&self, text_height: usize, gutter: usize, body_width: usize) -> (res: Vec<EditorRow>)
        requires
            self@.offset.y + text_height < usize::MAX,
        ensures
            res@.len() == text_height,
            forall|r: int|
                0 <= r < text_height ==> (#[trigger] res@[r])@ == code_row_spec(
                    self@,
                    self@.offset.y + r,
                    gutter as int,
                    body_width as int,
                    None,
                ),
    {
        let n = self.doc.line_count();
        let mut rows: Vec<EditorRow> = Vec::new();
        let mut r: usize = 0;
        while r < text_height
            invariant
                r <= text_height,
                self@.offset.y + text_height < usize::MAX,
                n == self@.lines.len(),
                rows@.len() == r,
                forall|k: int|
                    0 <= k < r ==> (#[trigger] rows@[k])@ == code_row_spec(
                        self@,
                        self@.offset.y + k,
                        gutter as int,
                        body_width as int,
                        None,
                    ),
            decreases text_height - r,
        {
            let f = self.offset.y + r;
            let row = if f < n {
                self.code_row(f, self.doc.lines[f].as_str(), None, gutter, body_width)
            } else {
                self.blank_row(f, gutter, body_width)
            };
            rows.push(row);
            r += 1;
        }
        rows
    }
}

} // verus!
