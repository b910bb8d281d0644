//! Terminal escape sequences in the preview's output: the "select graphic
//! rendition" codes that set colours and text attributes, and the cutting
//! of a line of such output into styled runs of visible text.
use vstd::prelude::*;

use crate::markdown::decimal_value;
use crate::text::{chars_of, is_ascii_alphabetic, is_ascii_digit, push_char, spec_is_ascii_alphabetic, spec_is_ascii_digit};

verus! {

/// A colour of the screen.
#[derive(Clone, Copy, PartialEq, Eq, Debug, Structural)]
pub enum TermColor {
    /// The panel's text colour.
    Foreground,
    /// The panel's background colour.
    Background,
    /// The faint colour of filler marks.
    DimForeground,
    /// A colour of the terminal's palette.
    Indexed(u8),
    /// A colour given by its red, green and blue parts.
    Rgb(u8, u8, u8),
}

/// Bold text.
pub const BOLD: u16 = 1;

/// Dimmed text.
pub const DIM: u16 = 2;

/// Italic text.
pub const ITALIC: u16 = 4;

/// Underlined text.
pub const UNDERLINED: u16 = 8;

/// How text is drawn: its colours, the attributes turned on (`add`) and
/// those turned off (`sub`), as sets of the bits above.
#[derive(Clone, Copy, PartialEq, Eq, Debug, Structural)]
pub struct SgrStyle {
    pub fg: TermColor,
    pub bg: TermColor,
    pub add: u16,
    pub sub: u16,
}

/// The panel's own style: its colours, no attribute.
pub open spec fn base_style() -> SgrStyle {
    SgrStyle { fg: TermColor::Foreground, bg: TermColor::Background, add: 0, sub: 0 }
}

/// `st` with the attributes `m` turned on.
pub open spec fn with_attrs(st: SgrStyle, m: u16) -> SgrStyle {
    SgrStyle { sub: st.sub & !m, add: st.add | m, ..st }
}

/// `st` with the attributes `m` turned off.
pub open spec fn without_attrs(st: SgrStyle, m: u16) -> SgrStyle {
    SgrStyle { add: st.add & !m, sub: st.sub | m, ..st }
}

/// `s` cut at every `';'`: one more part than there are `';'`.
pub open spec fn split_params(s: Seq<char>) -> Seq<Seq<char>>
    decreases s.len(),
{
    if s.len() == 0 {
        seq![Seq::empty()]
    } else {
        let rest = split_params(s.drop_last());
        if s.last() == ';' {
            rest.push(Seq::empty())
        } else {
            rest.update(rest.len() - 1, rest.last().push(s.last()))
        }
    }
}

/// Whether every character of `s` is an ASCII digit.
pub open spec fn all_digits(s: Seq<char>) -> bool {
    forall|k: int| 0 <= k < s.len() ==> spec_is_ascii_digit(#[trigger] s[k])
}

/// `p` without a leading `+`.
pub open spec fn unsigned_part(p: Seq<char>) -> Seq<char> {
    if p.len() > 0 && p[0] == '+' {
        p.skip(1)
    } else {
        p
    }
}

/// The number written `p`: decimal digits after an optional `+`, at most
/// 65535; `None` for anything else (the empty text too).
pub open spec fn parse_u16(p: Seq<char>) -> Option<u16> {
    let digits = unsigned_part(p);
    if digits.len() == 0 || !all_digits(digits) || decimal_value(digits) > 65535 {
        None
    } else {
        Some(decimal_value(digits) as u16)
    }
}

/// The parameters of the sequence `seq`: one 0 when it is empty, else the
/// number in each part between `';'`.
pub open spec fn sgr_params(seq: Seq<char>) -> Seq<Option<u16>> {
    if seq.len() == 0 {
        seq![Some(0u16)]
    } else {
        split_params(seq).map_values(|p: Seq<char>| parse_u16(p))
    }
}

/// The number of a parameter, 0 when it is missing.
pub open spec fn code_of(p: Option<u16>) -> u16 {
    match p {
        Some(c) => c,
        None => 0,
    }
}

/// `st` with its foreground (`fg`) or background colour set to `c`.
pub open spec fn with_color(st: SgrStyle, fg: bool, c: TermColor) -> SgrStyle {
    if fg {
        SgrStyle { fg: c, ..st }
    } else {
        SgrStyle { bg: c, ..st }
    }
}

/// The effect of the code at `params[i]` on `st`, and how many following
/// parameters it uses: 0 resets; 1 to 4 turn on bold, dim, italic,
/// underline, and 22 to 24 turn them off; 30 to 37 and 90 to 97 pick a
/// palette colour for the text, 40 to 47 and 100 to 107 for the background,
/// 39 and 49 go back to the panel's colours; 38 and 48 take `5;n` (palette
/// colour `n`) or `2;r;g;b`. Other codes do nothing.
pub open spec fn sgr_code(params: Seq<Option<u16>>, i: int, st: SgrStyle) -> (SgrStyle, int) {
    let code = code_of(params[i]);
    let n = params.len() as int;
    if code == 0 {
        (base_style(), 0)
    } else if code == 1 {
        (with_attrs(st, BOLD), 0)
    } else if code == 2 {
        (with_attrs(st, DIM), 0)
    } else if code == 3 {
        (with_attrs(st, ITALIC), 0)
    } else if code == 4 {
        (with_attrs(st, UNDERLINED), 0)
    } else if code == 22 {
        (without_attrs(st, BOLD | DIM), 0)
    } else if code == 23 {
        (without_attrs(st, ITALIC), 0)
    } else if code == 24 {
        (without_attrs(st, UNDERLINED), 0)
    } else if 30 <= code <= 37 {
        (with_color(st, true, TermColor::Indexed((code - 30) as u8)), 0)
    } else if 90 <= code <= 97 {
        (with_color(st, true, TermColor::Indexed((code - 90 + 8) as u8)), 0)
    } else if code == 39 {
        (with_color(st, true, TermColor::Foreground), 0)
    } else if 40 <= code <= 47 {
        (with_color(st, false, TermColor::Indexed((code - 40) as u8)), 0)
    } else if 100 <= code <= 107 {
        (with_color(st, false, TermColor::Indexed((code - 100 + 8) as u8)), 0)
    } else if code == 49 {
        (with_color(st, false, TermColor::Background), 0)
    } else if (code == 38 || code == 48) && i + 1 < n {
        let fg = code == 38;
        let mode = code_of(params[i + 1]);
        if mode == 5 && i + 2 < n {
            (
                match params[i + 2] {
                    Some(idx) => with_color(st, fg, TermColor::Indexed(idx as u8)),
                    None => st,
                },
                2,
            )
        } else if mode == 2 && i + 4 < n {
            (
                match (params[i + 2], params[i + 3], params[i + 4]) {
                    (Some(r), Some(g), Some(b)) => with_color(
                        st,
                        fg,
                        TermColor::Rgb(r as u8, g as u8, b as u8),
                    ),
                    _ => st,
                },
                4,
            )
        } else {
            (st, 0)
        }
    } else {
        (st, 0)
    }
}

/// The codes of `params` from `i` on, applied to `st` in turn.
pub open spec fn sgr_from(params: Seq<Option<u16>>, i: int, st: SgrStyle) -> SgrStyle
    decreases params.len() - i,
{
    if i < 0 || i >= params.len() {
        st
    } else {
        let (st2, used) = sgr_code(params, i, st);
        sgr_from(params, i + 1 + used, st2)
    }
}

/// `st` after the sequence `seq` (the text between `ESC [` and `m`).
pub open spec fn apply_sgr_spec(seq: Seq<char>, st: SgrStyle) -> SgrStyle {
    sgr_from(sgr_params(seq), 0, st)
}

/// The index of the first letter at or after `j`, or the length when there
/// is none.
pub open spec fn letter_from(chars: Seq<char>, j: int) -> int
    decreases chars.len() - j,
{
    if j < 0 || j >= chars.len() {
        chars.len() as int
    } else if spec_is_ascii_alphabetic(chars[j]) {
        j
    } else {
        letter_from(chars, j + 1)
    }
}

/// The first letter at or after `j` is not before `j`.
pub proof fn lemma_letter_from(chars: Seq<char>, j: int)
    requires
        0 <= j <= chars.len(),
    ensures
        j <= letter_from(chars, j) <= chars.len(),
    decreases chars.len() - j,
{
    if j < chars.len() && !spec_is_ascii_alphabetic(chars[j]) {
        lemma_letter_from(chars, j + 1);
    }
}

/// `spans` with the run `buf` in style `st` added when it is not empty.
pub open spec fn flush_run(spans: Seq<(Seq<char>, SgrStyle)>, buf: Seq<char>, st: SgrStyle) -> Seq<
    (Seq<char>, SgrStyle),
> {
    if buf.len() > 0 {
        spans.push((buf, st))
    } else {
        spans
    }
}

/// The runs of `chars` from `i` on, `visible` characters being shown
/// already: an escape sequence `ESC [ ... letter` ends the current run and
/// (when the letter is `m`) changes the style; line breaks are dropped;
/// other characters are shown until `width` of them are.
pub open spec fn ansi_from(
    chars: Seq<char>,
    width: int,
    i: int,
    visible: int,
    st: SgrStyle,
    buf: Seq<char>,
    spans: Seq<(Seq<char>, SgrStyle)>,
) -> Seq<(Seq<char>, SgrStyle)>
    decreases chars.len() - i,
{
    if i < 0 || i >= chars.len() || visible >= width {
        flush_run(spans, buf, st)
    } else if chars[i] == '\u{1b}' && i + 1 < chars.len() && chars[i + 1] == '[' {
        let j = letter_from(chars, i + 2);
        proof {
            lemma_letter_from(chars, i + 2);
        }
        let st2 = if j < chars.len() && chars[j] == 'm' {
            apply_sgr_spec(chars.subrange(i + 2, j), st)
        } else {
            st
        };
        let next = if j < chars.len() {
            j + 1
        } else {
            chars.len() as int
        };
        ansi_from(chars, width, next, visible, st2, Seq::empty(), flush_run(spans, buf, st))
    } else if chars[i] == '\n' || chars[i] == '\r' {
        ansi_from(chars, width, i + 1, visible, st, buf, spans)
    } else {
        ansi_from(chars, width, i + 1, visible + 1, st, buf.push(chars[i]), spans)
    }
}

/// The styled runs of the first `width` visible characters of `text`,
/// starting in the panel's style.
pub open spec fn ansi_line_spec(text: Seq<char>, width: int) -> Seq<(Seq<char>, SgrStyle)> {
    if width == 0 {
        Seq::empty()
    } else {
        ansi_from(text, width, 0, 0, base_style(), Seq::empty(), Seq::empty())
    }
}

/// A run of text in one style.
pub struct StyledRun {
    pub text: String,
    pub style: SgrStyle,
}

/// The runs as plain values.
pub open spec fn runs_view(s: Seq<StyledRun>) -> Seq<(Seq<char>, SgrStyle)> {
    s.map_values(|r: StyledRun| (r.text@, r.style))
}

/// The panel's own style.
pub fn base_sgr_style() -> (res: SgrStyle)
    ensures
        res == base_style(),
{
    SgrStyle { fg: TermColor::Foreground, bg: TermColor::Background, add: 0, sub: 0 }
}

proof fn lemma_split_step(s: Seq<char>, k: int)
    requires
        0 <= k < s.len(),
    ensures
        s.take(k + 1).drop_last() == s.take(k),
        s.take(k + 1).last() == s[k],
{
    assert(s.take(k + 1).drop_last() =~= s.take(k));
}

/// The number written `chars[start..end]`, as `parse_u16` reads it.
fn parse_param(chars: &Vec<char>, start: usize, end: usize) -> (res: Option<u16>)
    requires
        start <= end <= chars@.len(),
    ensures
        res == parse_u16(chars@.subrange(start as int, end as int)),
{
    let ghost p = chars@.subrange(start as int, end as int);
    let mut k = start;
    if k < end && chars[k] == '+' {
        k += 1;
    }
    let ghost digits = chars@.subrange(k as int, end as int);
    assert(digits =~= unsigned_part(p));
    if k == end {
        return None;
    }
    let first = k;
    let mut v: u32 = 0;
    assert(digits.take(0) =~= Seq::<char>::empty());
    while k < end
        invariant
            first <= k <= end <= chars@.len(),
            p == chars@.subrange(start as int, end as int),
            digits == unsigned_part(p),
            digits == chars@.subrange(first as int, end as int),
            forall|q: int| first <= q < k ==> spec_is_ascii_digit(#[trigger] chars@[q]),
            v == decimal_value(digits.take(k - first)),
            v <= 65535,
        decreases end - k,
    {
        if !is_ascii_digit(chars[k]) {
            proof {
                assert(digits[k - first] == chars@[k as int]);
                assert(!all_digits(digits));
            }
            return None;
        }
        proof {
            lemma_split_step(digits, k - first);
            assert(digits[k - first] == chars@[k as int]);
        }
        let d = (chars[k] as u32) - ('0' as u32);
        v = v * 10 + d;
        assert(v == decimal_value(digits.take(k + 1 - first)));
        if v > 65535 {
            proof {
                lemma_value_prefix_bound(digits, k + 1 - first);
            }
            return None;
        }
        k += 1;
    }
    assert(digits.take(k - first) =~= digits);
    assert forall|q: int| 0 <= q < digits.len() implies spec_is_ascii_digit(#[trigger] digits[q]) by {
        assert(digits[q] == chars@[first + q]);
    }
    Some(v as u16)
}

proof fn lemma_value_prefix_bound(s: Seq<char>, j: int)
    requires
        0 <= j <= s.len(),
    ensures
        decimal_value(s.take(j)) <= decimal_value(s),
    decreases s.len() - j,
{
    if j < s.len() {
        lemma_value_prefix_bound(s, j + 1);
        assert(s.take(j + 1).drop_last() =~= s.take(j));
    } else {
        assert(s.take(j) =~= s);
    }
}

/// The parameters of the sequence `seq`.
pub fn parse_sgr_params(seq: &str) -> (res: Vec<Option<u16>>)
    ensures
        res@ == sgr_params(seq@),
{
    let chars = chars_of(seq);
    let mut params: Vec<Option<u16>> = Vec::new();
    if chars.len() == 0 {
        params.push(Some(0));
        assert(params@ =~= seq![Some(0u16)]);
        return params;
    }
    let mut part_start: usize = 0;
    let mut k: usize = 0;
    assert(chars@.take(0) =~= Seq::<char>::empty());
    assert(params@ =~= split_params(chars@.take(0)).drop_last().map_values(|q: Seq<char>| parse_u16(q)));
    while k < chars.len()
        invariant
            k <= chars@.len(),
            part_start <= k,
            chars@ == seq@,
            split_params(chars@.take(k as int)).len() >= 1,
            split_params(chars@.take(k as int)).last() == chars@.subrange(part_start as int, k as int),
            params@ == split_params(chars@.take(k as int)).drop_last().map_values(
                |q: Seq<char>| parse_u16(q),
            ),
        decreases chars@.len() - k,
    {
        proof {
            lemma_split_step(chars@, k as int);
        }
        let ghost before = split_params(chars@.take(k as int));
        if chars[k] == ';' {
            let p = parse_param(&chars, part_start, k);
            params.push(p);
            part_start = k + 1;
            proof {
                let after = split_params(chars@.take(k + 1));
                assert(after == before.push(Seq::empty()));
                assert(after.drop_last() =~= before);
                assert(before =~= before.drop_last().push(before.last()));
                assert(chars@.subrange(part_start as int, k + 1) =~= Seq::<char>::empty());
                assert(params@ =~= after.drop_last().map_values(|q: Seq<char>| parse_u16(q)));
            }
        } else {
            proof {
                let after = split_params(chars@.take(k + 1));
                assert(after == before.update(before.len() - 1, before.last().push(chars@[k as int])));
                assert(after.drop_last() =~= before.drop_last());
                assert(chars@.subrange(part_start as int, k + 1) =~= chars@.subrange(
                    part_start as int,
                    k as int,
                ).push(chars@[k as int]));
            }
        }
        k += 1;
    }
    let p = parse_param(&chars, part_start, k);
    params.push(p);
    proof {
        assert(chars@.take(k as int) =~= seq@);
        let all = split_params(seq@);
        assert(all =~= all.drop_last().push(all.last()));
        assert(params@ =~= all.map_values(|q: Seq<char>| parse_u16(q)));
    }
    params
}

proof fn lemma_split_len(s: Seq<char>)
    ensures
        split_params(s).len() >= 1,
    decreases s.len(),
{
    if s.len() > 0 {
        lemma_split_len(s.drop_last());
    }
}

/// The code at `params[i]` applied to `st`, and how many following
/// parameters it uses.
fn apply_sgr_code(params: &Vec<Option<u16>>, i: usize, st: SgrStyle) -> (res: (SgrStyle, usize))
    requires
        i < params@.len(),
    ensures
        (res.0, res.1 as int) == sgr_code(params@, i as int, st),
{
    let code = match params[i] {
        Some(c) => c,
        None => 0,
    };
    let n = params.len();
    if code == 0 {
        (base_sgr_style(), 0)
    } else if code == 1 {
        (SgrStyle { sub: st.sub & !BOLD, add: st.add | BOLD, ..st }, 0)
    } else if code == 2 {
        (SgrStyle { sub: st.sub & !DIM, add: st.add | DIM, ..st }, 0)
    } else if code == 3 {
        (SgrStyle { sub: st.sub & !ITALIC, add: st.add | ITALIC, ..st }, 0)
    } else if code == 4 {
        (SgrStyle { sub: st.sub & !UNDERLINED, add: st.add | UNDERLINED, ..st }, 0)
    } else if code == 22 {
        (SgrStyle { add: st.add & !(BOLD | DIM), sub: st.sub | (BOLD | DIM), ..st }, 0)
    } else if code == 23 {
        (SgrStyle { add: st.add & !ITALIC, sub: st.sub | ITALIC, ..st }, 0)
    } else if code == 24 {
        (SgrStyle { add: st.add & !UNDERLINED, sub: st.sub | UNDERLINED, ..st }, 0)
    } else if 30 <= code && code <= 37 {
        (SgrStyle { fg: TermColor::Indexed((code - 30) as u8), ..st }, 0)
    } else if 90 <= code && code <= 97 {
        (SgrStyle { fg: TermColor::Indexed((code - 90 + 8) as u8), ..st }, 0)
    } else if code == 39 {
        (SgrStyle { fg: TermColor::Foreground, ..st }, 0)
    } else if 40 <= code && code <= 47 {
        (SgrStyle { bg: TermColor::Indexed((code - 40) as u8), ..st }, 0)
    } else if 100 <= code && code <= 107 {
        (SgrStyle { bg: TermColor::Indexed((code - 100 + 8) as u8), ..st }, 0)
    } else if code == 49 {
        (SgrStyle { bg: TermColor::Background, ..st }, 0)
    } else if (code == 38 || code == 48) && n - i > 1 {
        let fg = code == 38;
        let mode = match params[i + 1] {
            Some(m) => m,
            None => 0,
        };
        if mode == 5 && n - i > 2 {
            let st2 = match params[i + 2] {
                Some(idx) => if fg {
                    SgrStyle { fg: TermColor::Indexed(idx as u8), ..st }
                } else {
                    SgrStyle { bg: TermColor::Indexed(idx as u8), ..st }
                },
                None => st,
            };
            (st2, 2)
        } else if mode == 2 && n - i > 4 {
            let st2 = match (params[i + 2], params[i + 3], params[i + 4]) {
                (Some(r), Some(g), Some(b)) => {
                    let c = TermColor::Rgb(r as u8, g as u8, b as u8);
                    if fg {
                        SgrStyle { fg: c, ..st }
                    } else {
                        SgrStyle { bg: c, ..st }
                    }
                },
                _ => st,
            };
            (st2, 4)
        } else {
            (st, 0)
        }
    } else {
        (st, 0)
    }
}

/// Applies the sequence `seq` (the text between `ESC [` and `m`) to
/// `style`.
pub fn apply_sgr_sequence(seq: &str, style: &mut SgrStyle)
    ensures
        *final(style) == apply_sgr_spec(seq@, *old(style)),
{
    let params = parse_sgr_params(seq);
    let mut i: usize = 0;
    while i < params.len()
        invariant
            params@ == sgr_params(seq@),
            i <= params@.len(),
            sgr_from(params@, i as int, *style) == apply_sgr_spec(seq@, *old(style)),
        decreases params@.len() - i,
    {
        let (st2, used) = apply_sgr_code(&params, i, *style);
        *style = st2;
        if used >= params.len() - i {
            i = params.len();
        } else {
            i = i + 1 + used;
        }
    }
}

/// The styled runs of the first `width` visible characters of `text`
/// (escape sequences setting the style, line breaks dropped), starting in
/// the panel's style.
pub fn ansi_to_line_clipped(text: &str, width: usize) -> (res: Vec<StyledRun>)
    ensures
        runs_view(res@) == ansi_line_spec(text@, width as int),
{
    let mut spans: Vec<StyledRun> = Vec::new();
    if width == 0 {
        assert(runs_view(spans@) =~= Seq::<(Seq<char>, SgrStyle)>::empty());
        return spans;
    }
    let chars = chars_of(text);
    let mut style = base_sgr_style();
    let mut buffer = String::new();
    let mut visible: usize = 0;
    let mut i: usize = 0;
    assert(buffer@ =~= Seq::<char>::empty());
    assert(runs_view(spans@) =~= Seq::<(Seq<char>, SgrStyle)>::empty());
    while i < chars.len() && visible < width
        invariant
            chars@ == text@,
            width > 0,
            i <= chars@.len(),
            visible <= width,
            ansi_from(chars@, width as int, i as int, visible as int, style, buffer@, runs_view(spans@))
                == ansi_line_spec(text@, width as int),
        decreases chars@.len() - i,
    {
        if chars[i] == '\u{1b}' && i + 1 < chars.len() && chars[i + 1] == '[' {
            let ghost st0 = style;
            let ghost spans0 = runs_view(spans@);
            if !buffer.as_str().is_empty() {
                let ghost before = spans@;
                spans.push(StyledRun { text: buffer, style });
                assert(runs_view(spans@) =~= runs_view(before).push((buffer@, style)));
                buffer = String::new();
            } else {
                buffer = String::new();
            }
            let mut j = i + 2;
            while j < chars.len() && !is_ascii_alphabetic(chars[j])
                invariant
                    i + 2 <= j <= chars@.len(),
                    letter_from(chars@, i + 2) == letter_from(chars@, j as int),
                decreases chars@.len() - j,
            {
                j += 1;
            }
            if j < chars.len() {
                if chars[j] == 'm' {
                    let seq = crate::text::string_from_chars(chars.as_slice(), i + 2, j);
                    apply_sgr_sequence(seq.as_str(), &mut style);
                }
                i = j + 1;
            } else {
                i = chars.len();
            }
            assert(buffer@ =~= Seq::<char>::empty());
            continue;
        }
        let ch = chars[i];
        i += 1;
        if ch == '\n' || ch == '\r' {
            continue;
        }
        push_char(&mut buffer, ch);
        visible += 1;
    }
    if !buffer.as_str().is_empty() {
        let ghost before = spans@;
        spans.push(StyledRun { text: buffer, style });
        assert(runs_view(spans@) =~= runs_view(before).push((buffer@, style)));
    }
    spans
}

/// The code 0, and the empty sequence, bring back the panel's own style
/// from any style.
pub proof fn law_reset_gives_base(st: SgrStyle)
    ensures
        apply_sgr_spec(seq!['0'], st) == base_style(),
        apply_sgr_spec(Seq::empty(), st) == base_style(),
{
    let p = seq!['0'];
    assert(p.drop_last() =~= Seq::<char>::empty());
    assert(split_params(Seq::<char>::empty()) == seq![Seq::<char>::empty()]);
    assert(Seq::<char>::empty().push('0') =~= seq!['0']);
    assert(split_params(p) =~= seq![seq!['0']]);
    assert(decimal_value(Seq::<char>::empty()) == 0);
    assert(p.last() == '0');
    assert(unsigned_part(seq!['0']) =~= seq!['0']);
    assert(seq!['0'].drop_last() =~= Seq::<char>::empty());
    assert(decimal_value(seq!['0']) == 0);
    assert(all_digits(seq!['0']));
    assert(parse_u16(seq!['0']) == Some(0u16));
    assert(sgr_params(p) =~= seq![Some(0u16)]);
    let params = seq![Some(0u16)];
    assert(sgr_code(params, 0, st) == (base_style(), 0int));
    assert(sgr_from(params, 1, base_style()) == base_style());
    assert(sgr_from(params, 0, st) == base_style());
}

/// Whether `r` is `st` with the attributes `m` turned on (and no longer
/// turned off), everything else kept, and no following parameter used.
pub open spec fn turns_on(r: (SgrStyle, int), st: SgrStyle, m: u16) -> bool {
    &&& r.1 == 0
    &&& r.0.fg == st.fg && r.0.bg == st.bg
    &&& r.0.add & m == m && r.0.sub & m == 0
    &&& r.0.add & !m == st.add & !m && r.0.sub & !m == st.sub & !m
}

/// Whether `r` is `st` with the attributes `m` turned off (and no longer
/// turned on), everything else kept, and no following parameter used.
pub open spec fn turns_off(r: (SgrStyle, int), st: SgrStyle, m: u16) -> bool {
    &&& r.1 == 0
    &&& r.0.fg == st.fg && r.0.bg == st.bg
    &&& r.0.sub & m == m && r.0.add & m == 0
    &&& r.0.add & !m == st.add & !m && r.0.sub & !m == st.sub & !m
}

proof fn lemma_attr_bits(a: u16, s: u16, m: u16)
    ensures
        (a | m) & m == m,
        (s & !m) & m == 0,
        (a | m) & !m == a & !m,
        (s & !m) & !m == s & !m,
        (s | m) & m == m,
        (a & !m) & m == 0,
        (s | m) & !m == s & !m,
        (a & !m) & !m == a & !m,
{
    assert((a | m) & m == m) by (bit_vector);
    assert((s & !m) & m == 0) by (bit_vector);
    assert((a | m) & !m == a & !m) by (bit_vector);
    assert((s & !m) & !m == s & !m) by (bit_vector);
    assert((s | m) & m == m) by (bit_vector);
    assert((a & !m) & m == 0) by (bit_vector);
    assert((s | m) & !m == s & !m) by (bit_vector);
    assert((a & !m) & !m == a & !m) by (bit_vector);
}

/// The attribute codes do what the SGR standard says, on any style: 1, 2,
/// 3 and 4 turn on bold, dim, italic and underline; 22 turns off bold and
/// dim, 23 italic, 24 underline; colours and other attributes stay.
pub proof fn law_attribute_codes(params: Seq<Option<u16>>, i: int, st: SgrStyle)
    requires
        0 <= i < params.len(),
    ensures
        code_of(params[i]) == 1 ==> turns_on(sgr_code(params, i, st), st, BOLD),
        code_of(params[i]) == 2 ==> turns_on(sgr_code(params, i, st), st, DIM),
        code_of(params[i]) == 3 ==> turns_on(sgr_code(params, i, st), st, ITALIC),
        code_of(params[i]) == 4 ==> turns_on(sgr_code(params, i, st), st, UNDERLINED),
        code_of(params[i]) == 22 ==> turns_off(sgr_code(params, i, st), st, BOLD | DIM),
        code_of(params[i]) == 23 ==> turns_off(sgr_code(params, i, st), st, ITALIC),
        code_of(params[i]) == 24 ==> turns_off(sgr_code(params, i, st), st, UNDERLINED),
{
    lemma_attr_bits(st.add, st.sub, BOLD);
    lemma_attr_bits(st.add, st.sub, DIM);
    lemma_attr_bits(st.add, st.sub, ITALIC);
    lemma_attr_bits(st.add, st.sub, UNDERLINED);
    lemma_attr_bits(st.add, st.sub, BOLD | DIM);
}

} // verus!
