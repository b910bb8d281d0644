//! Markdown highlighting of one line at a time, and list continuation.
use vstd::prelude::*;

use crate::text::{
    all_ws, chars_of, first_non_whitespace, first_non_ws, has_non_ws, is_ascii_alphabetic,
    is_ascii_alphanumeric, is_ascii_digit, is_whitespace, lemma_ws_run_end, push_char,
    spec_is_ascii_alphabetic, spec_is_ascii_alphanumeric, spec_is_ascii_digit,
    spec_is_whitespace, string_from_chars, push_str,
};

verus! {

/// The highlighting class of one character.
#[derive(Clone, Copy, PartialEq, Eq, Debug, Structural)]
pub enum MdStyle {
    Normal,
    Heading,
    Quote,
    Marker,
    Code,
    Emphasis,
    Strong,
    EmphasisStrong,
    Strike,
    LinkText,
    LinkUrl,
    HtmlTag,
}

/// `n` copies of `st`.
pub open spec fn uniform(n: nat, st: MdStyle) -> Seq<MdStyle> {
    Seq::new(n, |k: int| st)
}

/// `styles` with the slots `[start, min(end, len))` set to `st`.
pub open spec fn paint(styles: Seq<MdStyle>, start: int, end: int, st: MdStyle) -> Seq<MdStyle> {
    Seq::new(
        styles.len(),
        |k: int|
            if start <= k && k < end {
                st
            } else {
                styles[k]
            },
    )
}

/// The number of backslashes immediately before position `p`.
pub open spec fn backslashes_before(chars: Seq<char>, p: int) -> nat
    decreases p,
{
    if 0 < p <= chars.len() && chars[p - 1] == '\\' {
        1 + backslashes_before(chars, p - 1)
    } else {
        0
    }
}

/// Whether the character at `idx` is escaped: an odd number of backslashes
/// stands right before it.
pub open spec fn escaped(chars: Seq<char>, idx: int) -> bool {
    backslashes_before(chars, idx) % 2 == 1
}

/// Whether the slots `[start, end)` exist and hold only styles that inline
/// markup may still change (plain text, heading or quote text).
pub open spec fn restylable(styles: Seq<MdStyle>, start: int, end: int) -> bool {
    &&& 0 <= start < end <= styles.len()
    &&& forall|k: int|
        start <= k < end ==> (#[trigger] styles[k] == MdStyle::Normal || styles[k]
            == MdStyle::Heading || styles[k] == MdStyle::Quote)
}

/// The end of the run of `c` in `chars` that begins at `i`.
pub open spec fn run_end(chars: Seq<char>, i: int, c: char) -> int
    decreases chars.len() - i,
{
    if 0 <= i < chars.len() && chars[i] == c {
        run_end(chars, i + 1, c)
    } else {
        i
    }
}

/// The end of the run of ASCII digits in `chars` that begins at `i`.
pub open spec fn digit_run_end(chars: Seq<char>, i: int) -> int
    decreases chars.len() - i,
{
    if 0 <= i < chars.len() && spec_is_ascii_digit(chars[i]) {
        digit_run_end(chars, i + 1)
    } else {
        i
    }
}

proof fn lemma_run_end(chars: Seq<char>, i: int, c: char)
    requires
        0 <= i <= chars.len(),
    ensures
        i <= run_end(chars, i, c) <= chars.len(),
        forall|k: int| i <= k < run_end(chars, i, c) ==> #[trigger] chars[k] == c,
        run_end(chars, i, c) < chars.len() ==> chars[run_end(chars, i, c)] != c,
    decreases chars.len() - i,
{
    if i < chars.len() && chars[i] == c {
        lemma_run_end(chars, i + 1, c);
    }
}

proof fn lemma_digit_run_end(chars: Seq<char>, i: int)
    requires
        0 <= i <= chars.len(),
    ensures
        i <= digit_run_end(chars, i) <= chars.len(),
        forall|k: int| i <= k < digit_run_end(chars, i) ==> spec_is_ascii_digit(#[trigger] chars[k]),
        digit_run_end(chars, i) < chars.len() ==> !spec_is_ascii_digit(
            chars[digit_run_end(chars, i)],
        ),
    decreases chars.len() - i,
{
    if i < chars.len() && spec_is_ascii_digit(chars[i]) {
        lemma_digit_run_end(chars, i + 1);
    }
}

/// Sets the slots `[start, min(end, len))` of `styles` to `style`.
pub fn paint_style_range(styles: &mut Vec<MdStyle>, start: usize, end: usize, style: MdStyle)
    ensures
        final(styles)@ == paint(old(styles)@, start as int, end as int, style),
{
    let stop = if end < styles.len() {
        end
    } else {
        styles.len()
    };
    let mut k = start;
    while k < stop
        invariant
            start <= k,
            stop <= styles@.len(),
            stop <= end,
            styles@.len() == old(styles)@.len(),
            k <= stop || k == start,
            forall|m: int|
                0 <= m < styles@.len() ==> #[trigger] styles@[m] == if start <= m < k {
                    style
                } else {
                    old(styles)@[m]
                },
        decreases stop - k,
    {
        styles.set(k, style);
        k += 1;
    }
    assert(styles@ =~= paint(old(styles)@, start as int, end as int, style));
}

/// Whether the character at `idx` follows an odd number of backslashes.
pub fn is_escaped_marker(chars: &[char], idx: usize) -> (res: bool)
    requires
        idx <= chars@.len(),
    ensures
        res == escaped(chars@, idx as int),
{
    if idx == 0 {
        return false;
    }
    let mut backslashes: usize = 0;
    let mut pos = idx;
    while pos > 0 && chars[pos - 1] == '\\'
        invariant
            pos <= idx <= chars@.len(),
            backslashes + pos == idx,
            backslashes_before(chars@, idx as int) == backslashes + backslashes_before(
                chars@,
                pos as int,
            ),
        decreases pos,
    {
        backslashes += 1;
        pos -= 1;
    }
    backslashes % 2 == 1
}

/// Whether the slots `[start, end)` of `styles` may still be restyled.
pub fn can_restyle_span(styles: &Vec<MdStyle>, start: usize, end: usize) -> (res: bool)
    ensures
        res == restylable(styles@, start as int, end as int),
{
    if start >= end || end > styles.len() {
        return false;
    }
    let mut k = start;
    while k < end
        invariant
            start <= k <= end <= styles@.len(),
            forall|m: int|
                start <= m < k ==> (#[trigger] styles@[m] == MdStyle::Normal || styles@[m]
                    == MdStyle::Heading || styles@[m] == MdStyle::Quote),
        decreases end - k,
    {
        let st = styles[k];
        if !(st == MdStyle::Normal || st == MdStyle::Heading || st == MdStyle::Quote) {
            return false;
        }
        k += 1;
    }
    true
}

/// Where the text of an ATX heading begins, for a line whose first
/// non-blank character is at `start`: one to six `#` and a space.
pub open spec fn spec_heading_start(chars: Seq<char>, start: int) -> Option<int> {
    let idx = run_end(chars, start, '#');
    let hashes = idx - start;
    if 1 <= hashes <= 6 && idx < chars.len() && chars[idx] == ' ' {
        Some(idx + 1)
    } else {
        None
    }
}

/// Where the text of an ATX heading begins (after `#`s and a space).
pub fn markdown_heading_start(chars: &[char], start: usize) -> (res: Option<usize>)
    requires
        start <= chars@.len(),
    ensures
        match res {
            Some(v) => spec_heading_start(chars@, start as int) == Some(v as int),
            None => spec_heading_start(chars@, start as int) is None,
        },
{
    let mut idx = start;
    proof {
        lemma_run_end(chars@, start as int, '#');
    }
    while idx < chars.len() && chars[idx] == '#'
        invariant
            start <= idx <= chars@.len(),
            run_end(chars@, idx as int, '#') == run_end(chars@, start as int, '#'),
        decreases chars@.len() - idx,
    {
        idx += 1;
    }
    let hashes = idx - start;
    if 1 <= hashes && hashes <= 6 && idx < chars.len() && chars[idx] == ' ' {
        Some(idx + 1)
    } else {
        None
    }
}

/// The bullet or number marker (with its space) of a list item whose first
/// non-blank character is at `start`.
pub open spec fn spec_list_marker(chars: Seq<char>, start: int) -> Option<(int, int)> {
    if start + 1 < chars.len() && (chars[start] == '-' || chars[start] == '*' || chars[start]
        == '+') && chars[start + 1] == ' ' {
        Some((start, start + 2))
    } else {
        let idx = digit_run_end(chars, start);
        if idx > start && idx + 1 < chars.len() && chars[idx] == '.' && chars[idx + 1] == ' ' {
            Some((start, idx + 2))
        } else {
            None
        }
    }
}

/// The list marker of a line whose first non-blank character is at `start`.
pub fn markdown_list_marker(chars: &[char], start: usize) -> (res: Option<(usize, usize)>)
    requires
        start <= chars@.len(),
    ensures
        match res {
            Some((a, b)) => spec_list_marker(chars@, start as int) == Some((a as int, b as int)),
            None => spec_list_marker(chars@, start as int) is None,
        },
{
    if start < chars.len() && chars.len() - start > 1 && (chars[start] == '-' || chars[start]
        == '*' || chars[start] == '+') && chars[start + 1] == ' ' {
        return Some((start, start + 2));
    }
    let idx = digit_end(chars, start);
    if idx > start && idx < chars.len() && chars.len() - idx > 1 && chars[idx] == '.' && chars[idx
        + 1] == ' ' {
        return Some((start, idx + 2));
    }
    None
}

/// The end of the run of ASCII digits that begins at `start`.
fn digit_end(chars: &[char], start: usize) -> (res: usize)
    requires
        start <= chars@.len(),
    ensures
        res == digit_run_end(chars@, start as int),
        start <= res <= chars@.len(),
{
    let mut idx = start;
    proof {
        lemma_digit_run_end(chars@, start as int);
    }
    while idx < chars.len() && is_ascii_digit(chars[idx])
        invariant
            start <= idx <= chars@.len(),
            digit_run_end(chars@, idx as int) == digit_run_end(chars@, start as int),
        decreases chars@.len() - idx,
    {
        idx += 1;
    }
    idx
}

/// Whether every character from `start` on is `marker` or whitespace.
pub open spec fn only_marker_from(chars: Seq<char>, start: int, marker: char) -> bool {
    forall|k: int|
        start <= k < chars.len() ==> #[trigger] chars[k] == marker || spec_is_whitespace(chars[k])
}

/// The number of occurrences of `c` in `s`.
pub open spec fn count_char(s: Seq<char>, c: char) -> nat
    decreases s.len(),
{
    if s.len() == 0 {
        0
    } else {
        count_char(s.drop_last(), c) + if s.last() == c {
            1nat
        } else {
            0nat
        }
    }
}

proof fn lemma_count_first(s: Seq<char>, c: char)
    requires
        s.len() > 0,
        s[0] == c,
    ensures
        count_char(s, c) >= 1,
    decreases s.len(),
{
    if s.len() > 1 {
        lemma_count_first(s.drop_last(), c);
    }
}

/// A setext underline: blanks, then `=` or `-` characters and blanks only.
pub open spec fn spec_is_setext_underline(chars: Seq<char>) -> bool {
    let start = first_non_ws(chars);
    &&& start < chars.len()
    &&& (chars[start] == '=' || chars[start] == '-')
    &&& only_marker_from(chars, start, chars[start])
}

/// A thematic break: blanks, then one of `-`, `*`, `_` at least three times,
/// with blanks only between.
pub open spec fn spec_is_thematic_break(chars: Seq<char>) -> bool {
    let start = first_non_ws(chars);
    &&& start < chars.len()
    &&& (chars[start] == '-' || chars[start] == '*' || chars[start] == '_')
    &&& only_marker_from(chars, start, chars[start])
    &&& count_char(chars.skip(start), chars[start]) >= 3
}

/// Counts `marker` from `start` on; `None` when some other character
/// that is not whitespace occurs there.
fn marker_only_count(chars: &[char], start: usize, marker: char) -> (res: Option<usize>)
    requires
        start <= chars@.len(),
    ensures
        match res {
            Some(n) => only_marker_from(chars@, start as int, marker) && n == count_char(
                chars@.skip(start as int),
                marker,
            ),
            None => !only_marker_from(chars@, start as int, marker),
        },
{
    let mut count: usize = 0;
    let mut k = start;
    assert(chars@.skip(start as int).take(0) =~= Seq::<char>::empty());
    while k < chars.len()
        invariant
            start <= k <= chars@.len(),
            count <= k - start,
            count == count_char(chars@.skip(start as int).take(k - start), marker),
            forall|m: int|
                start <= m < k ==> #[trigger] chars@[m] == marker || spec_is_whitespace(
                    chars@[m],
                ),
        decreases chars@.len() - k,
    {
        let c = chars[k];
        proof {
            assert(chars@.skip(start as int).take(k + 1 - start).drop_last() =~= chars@.skip(
                start as int,
            ).take(k - start));
        }
        if c == marker {
            count += 1;
        } else if is_whitespace(c) {
        } else {
            return None;
        }
        k += 1;
    }
    assert(chars@.skip(start as int).take(k - start) =~= chars@.skip(start as int));
    Some(count)
}

/// Whether the line is a setext heading underline.
pub fn is_setext_underline_chars(chars: &[char]) -> (res: bool)
    ensures
        res == spec_is_setext_underline(chars@),
{
    let start = first_non_whitespace(chars);
    if start >= chars.len() {
        return false;
    }
    let marker = chars[start];
    if marker != '=' && marker != '-' {
        return false;
    }
    match marker_only_count(chars, start, marker) {
        Some(n) => {
            proof {
                lemma_count_first(chars@.skip(start as int), marker);
            }
            n >= 1
        },
        None => false,
    }
}

/// Whether `line` is a setext heading underline.
pub fn is_setext_underline_line(line: &str) -> (res: bool)
    ensures
        res == spec_is_setext_underline(line@),
{
    let chars = chars_of(line);
    is_setext_underline_chars(chars.as_slice())
}

/// Whether the line is a thematic break.
pub fn is_thematic_break_chars(chars: &[char]) -> (res: bool)
    ensures
        res == spec_is_thematic_break(chars@),
{
    let start = first_non_whitespace(chars);
    if start >= chars.len() {
        return false;
    }
    let marker = chars[start];
    if marker != '-' && marker != '*' && marker != '_' {
        return false;
    }
    match marker_only_count(chars, start, marker) {
        Some(n) => n >= 3,
        None => false,
    }
}

/// A fence line: blanks, then three backticks or three tildes.
pub open spec fn spec_is_fence(chars: Seq<char>) -> bool {
    let start = first_non_ws(chars);
    &&& start + 2 < chars.len()
    &&& (chars[start] == '`' && chars[start + 1] == '`' && chars[start + 2] == '`') || (
    chars[start] == '~' && chars[start + 1] == '~' && chars[start + 2] == '~')
}

/// Whether the line opens or closes a fenced code block.
pub fn is_fenced_code_chars(chars: &[char]) -> (res: bool)
    ensures
        res == spec_is_fence(chars@),
{
    let start = first_non_whitespace(chars);
    if start >= chars.len() || chars.len() - start <= 2 {
        return false;
    }
    (chars[start] == '`' && chars[start + 1] == '`' && chars[start + 2] == '`') || (chars[start]
        == '~' && chars[start + 1] == '~' && chars[start + 2] == '~')
}

/// Whether `line` opens or closes a fenced code block.
pub fn is_fenced_code_line(line: &str) -> (res: bool)
    ensures
        res == spec_is_fence(line@),
{
    let chars = chars_of(line);
    is_fenced_code_chars(chars.as_slice())
}

/// An indented code line: four spaces or a tab at its start.
pub open spec fn spec_is_indented_code(s: Seq<char>) -> bool {
    (s.len() >= 4 && s[0] == ' ' && s[1] == ' ' && s[2] == ' ' && s[3] == ' ') || (s.len() >= 1
        && s[0] == '\t')
}

/// Whether `line` is an indented code line.
pub fn is_indented_code_line(line: &str) -> (res: bool)
    ensures
        res == spec_is_indented_code(line@),
{
    let s = chars_of(line);
    (s.len() >= 4 && s[0] == ' ' && s[1] == ' ' && s[2] == ' ' && s[3] == ' ') || (s.len() >= 1
        && s[0] == '\t')
}


/// The first position `j` in `[from, len)` with `chars[j] == c` (and, when
/// `unescaped` is set, not escaped).
pub open spec fn find_char(chars: Seq<char>, c: char, from: int, unescaped: bool) -> Option<int>
    decreases chars.len() - from,
{
    if from < 0 || from >= chars.len() {
        None
    } else if chars[from] == c && (!unescaped || !escaped(chars, from)) {
        Some(from)
    } else {
        find_char(chars, c, from + 1, unescaped)
    }
}

/// A character found is the one looked for, at or after the start (and not
/// escaped when that was asked).
pub proof fn lemma_find_char(chars: Seq<char>, c: char, from: int, unescaped: bool)
    ensures
        find_char(chars, c, from, unescaped) matches Some(j) ==> from <= j < chars.len() && chars[j]
            == c && (!unescaped || !escaped(chars, j)),
    decreases chars.len() - from,
{
    if 0 <= from < chars.len() && !(chars[from] == c && (!unescaped || !escaped(chars, from))) {
        lemma_find_char(chars, c, from + 1, unescaped);
    }
}

/// The first position at or after `from` holding `c` (not escaped, when
/// `unescaped` is set).
fn find_char_from(chars: &[char], c: char, from: usize, unescaped: bool) -> (res: Option<usize>)
    ensures
        match res {
            Some(j) => find_char(chars@, c, from as int, unescaped) == Some(j as int),
            None => find_char(chars@, c, from as int, unescaped) is None,
        },
{
    let mut j = from;
    while j < chars.len()
        invariant
            from <= j,
            find_char(chars@, c, j as int, unescaped) == find_char(chars@, c, from as int, unescaped),
        decreases chars@.len() - j,
    {
        if chars[j] == c && (!unescaped || !is_escaped_marker(chars, j)) {
            return Some(j);
        }
        j += 1;
    }
    None
}

/// Styles of a link `[text](url)` whose brackets and parentheses are at
/// `i`, `cb`, `cb + 1` and `cp`; a `!` right before the link (an image) is
/// a marker too.
pub open spec fn link_paint(chars: Seq<char>, styles: Seq<MdStyle>, i: int, cb: int, cp: int) -> Seq<
    MdStyle,
> {
    let s1 = styles.update(i, MdStyle::Marker);
    let s2 = if i > 0 && chars[i - 1] == '!' && !escaped(chars, i - 1) {
        s1.update(i - 1, MdStyle::Marker)
    } else {
        s1
    };
    let s3 = s2.update(cb, MdStyle::Marker).update(cb + 1, MdStyle::Marker).update(
        cp,
        MdStyle::Marker,
    );
    paint(paint(s3, i + 1, cb, MdStyle::LinkText), cb + 2, cp, MdStyle::LinkUrl)
}

/// The link pass from position `i` on: each unescaped `[` that an
/// unescaped `]` directly followed by `(` and then an unescaped `)` close
/// is styled as a link, and the scan goes on after the `)`.
pub open spec fn link_pass(chars: Seq<char>, styles: Seq<MdStyle>, i: int) -> Seq<MdStyle>
    decreases chars.len() - i,
{
    if i < 0 || i >= chars.len() {
        styles
    } else if chars[i] != '[' || escaped(chars, i) {
        link_pass(chars, styles, i + 1)
    } else {
        match find_char(chars, ']', i + 1, true) {
            None => link_pass(chars, styles, i + 1),
            Some(cb) => if cb + 1 >= chars.len() || chars[cb + 1] != '(' {
                link_pass(chars, styles, i + 1)
            } else {
                match find_char(chars, ')', cb + 2, true) {
                    None => link_pass(chars, styles, i + 1),
                    Some(cp) => {
                        proof {
                            lemma_find_char(chars, ']', i + 1, true);
                            lemma_find_char(chars, ')', cb + 2, true);
                        }
                        link_pass(chars, link_paint(chars, styles, i, cb, cp), cp + 1)
                    },
                }
            },
        }
    }
}

/// Styles the links of the line.
pub fn apply_link_styles(chars: &[char], styles: &mut Vec<MdStyle>)
    requires
        old(styles)@.len() >= chars@.len(),
    ensures
        final(styles)@ == link_pass(chars@, old(styles)@, 0),
        final(styles)@.len() == old(styles)@.len(),
{
    let mut i: usize = 0;
    while i < chars.len()
        invariant
            i <= chars@.len(),
            styles@.len() == old(styles)@.len(),
            old(styles)@.len() >= chars@.len(),
            link_pass(chars@, styles@, i as int) == link_pass(chars@, old(styles)@, 0),
        decreases chars@.len() - i,
    {
        if chars[i] != '[' || is_escaped_marker(chars, i) {
            i += 1;
            continue;
        }
        let close_bracket = match find_char_from(chars, ']', i + 1, true) {
            Some(j) => j,
            None => {
                i += 1;
                continue;
            },
        };
        proof {
            lemma_find_char(chars@, ']', i + 1, true);
        }
        if close_bracket + 1 >= chars.len() || chars[close_bracket + 1] != '(' {
            i += 1;
            continue;
        }
        let close_paren = match find_char_from(chars, ')', close_bracket + 2, true) {
            Some(j) => j,
            None => {
                i += 1;
                continue;
            },
        };
        proof {
            lemma_find_char(chars@, ')', close_bracket + 2, true);
        }
        let ghost before = styles@;
        styles.set(i, MdStyle::Marker);
        if i > 0 && chars[i - 1] == '!' && !is_escaped_marker(chars, i - 1) {
            styles.set(i - 1, MdStyle::Marker);
        }
        styles.set(close_bracket, MdStyle::Marker);
        styles.set(close_bracket + 1, MdStyle::Marker);
        styles.set(close_paren, MdStyle::Marker);
        paint_style_range(styles, i + 1, close_bracket, MdStyle::LinkText);
        paint_style_range(styles, close_bracket + 2, close_paren, MdStyle::LinkUrl);
        assert(styles@ == link_paint(chars@, before, i as int, close_bracket as int, close_paren as int));
        i = close_paren + 1;
    }
}

/// Whether `c` may start an HTML tag name (after `<` or `</`).
pub open spec fn spec_tag_head(c: char) -> bool {
    spec_is_ascii_alphabetic(c) || c == '!' || c == '?'
}

/// Whether `c` may start an HTML tag name.
pub fn looks_like_html_tag_head(c: char) -> (res: bool)
    ensures
        res == spec_tag_head(c),
{
    is_ascii_alphabetic(c) || c == '!' || c == '?'
}

/// The HTML-tag pass from position `i` on: an unescaped `<`, an optional
/// `/`, a tag-name start and a later `>` make a tag.
pub open spec fn html_pass(chars: Seq<char>, styles: Seq<MdStyle>, i: int) -> Seq<MdStyle>
    decreases chars.len() - i,
{
    if i < 0 || i >= chars.len() {
        styles
    } else if chars[i] != '<' || escaped(chars, i) {
        html_pass(chars, styles, i + 1)
    } else {
        let head = if i + 1 < chars.len() && chars[i + 1] == '/' {
            i + 2
        } else {
            i + 1
        };
        if head >= chars.len() || !spec_tag_head(chars[head]) {
            html_pass(chars, styles, i + 1)
        } else {
            match find_char(chars, '>', head + 1, false) {
                None => html_pass(chars, styles, i + 1),
                Some(e) => {
                    proof {
                        lemma_find_char(chars, '>', head + 1, false);
                    }
                    html_pass(chars, paint(styles, i, e + 1, MdStyle::HtmlTag), e + 1)
                },
            }
        }
    }
}

/// Styles the HTML tags of the line.
pub fn apply_html_tag_styles(chars: &[char], styles: &mut Vec<MdStyle>)
    requires
        old(styles)@.len() >= chars@.len(),
    ensures
        final(styles)@ == html_pass(chars@, old(styles)@, 0),
        final(styles)@.len() == old(styles)@.len(),
{
    let mut i: usize = 0;
    while i < chars.len()
        invariant
            i <= chars@.len(),
            styles@.len() == old(styles)@.len(),
            old(styles)@.len() >= chars@.len(),
            html_pass(chars@, styles@, i as int) == html_pass(chars@, old(styles)@, 0),
        decreases chars@.len() - i,
    {
        if chars[i] != '<' || is_escaped_marker(chars, i) {
            i += 1;
            continue;
        }
        let mut head = i + 1;
        if head < chars.len() && chars[head] == '/' {
            head += 1;
        }
        if head >= chars.len() {
            i += 1;
            continue;
        }
        if !looks_like_html_tag_head(chars[head]) {
            i += 1;
            continue;
        }
        let end = match find_char_from(chars, '>', head + 1, false) {
            Some(e) => e,
            None => {
                i += 1;
                continue;
            },
        };
        proof {
            lemma_find_char(chars@, '>', head + 1, false);
        }
        paint_style_range(styles, i, end + 1, MdStyle::HtmlTag);
        i = end + 1;
    }
}

/// Whether `s` begins with `p`.
pub open spec fn starts_with(s: Seq<char>, p: Seq<char>) -> bool {
    p.len() <= s.len() && s.take(p.len() as int) == p
}

/// Whether `s` holds the character `c`.
pub open spec fn contains_char(s: Seq<char>, c: char) -> bool {
    exists|k: int| 0 <= k < s.len() && s[k] == c
}

/// An e-mail-like target: exactly one `@`, something before it, and after
/// it a domain holding a `.` that neither begins nor ends with `.`.
pub open spec fn spec_is_email_like(c: Seq<char>) -> bool {
    match find_char(c, '@', 0, false) {
        None => false,
        Some(p) => {
            let domain = c.skip(p + 1);
            &&& find_char(c, '@', p + 1, false) is None
            &&& p > 0
            &&& contains_char(domain, '.')
            &&& domain[0] != '.'
            &&& domain.last() != '.'
        },
    }
}

/// The target of an autolink `<...>`: not empty, no whitespace, and a
/// `http://`, `https://` or `mailto:` address or an e-mail-like one.
pub open spec fn spec_is_autolink_target(c: Seq<char>) -> bool {
    &&& c.len() > 0
    &&& forall|k: int| 0 <= k < c.len() ==> !spec_is_whitespace(#[trigger] c[k])
    &&& (starts_with(c, seq!['h', 't', 't', 'p', ':', '/', '/']) || starts_with(
        c,
        seq!['h', 't', 't', 'p', 's', ':', '/', '/'],
    ) || starts_with(c, seq!['m', 'a', 'i', 'l', 't', 'o', ':']) || spec_is_email_like(c))
}

/// Whether `chars[at..]` begins with `p`.
fn starts_with_at(chars: &[char], at: usize, p: &[char]) -> (res: bool)
    requires
        at <= chars@.len(),
    ensures
        res == starts_with(chars@.skip(at as int), p@),
{
    if chars.len() - at < p.len() {
        return false;
    }
    let mut k: usize = 0;
    let total = chars.len();
    while k < p.len()
        invariant
            total == chars@.len(),
            at + p@.len() <= chars@.len(),
            k <= p@.len(),
            forall|m: int| 0 <= m < k ==> chars@[at + m] == p@[m],
        decreases p@.len() - k,
    {
        if chars[at + k] != p[k] {
            assert(chars@.skip(at as int).take(p@.len() as int)[k as int] != p@[k as int]);
            return false;
        }
        k += 1;
    }
    assert(chars@.skip(at as int).take(p@.len() as int) =~= p@);
    true
}

/// Whether `chars[start..end]` holds the character `c`.
fn range_contains(chars: &[char], start: usize, end: usize, c: char) -> (res: bool)
    requires
        start <= end <= chars@.len(),
    ensures
        res == contains_char(chars@.subrange(start as int, end as int), c),
{
    let mut k = start;
    while k < end
        invariant
            start <= k <= end <= chars@.len(),
            forall|m: int| start <= m < k ==> chars@[m] != c,
        decreases end - k,
    {
        if chars[k] == c {
            assert(chars@.subrange(start as int, end as int)[k - start] == c);
            return true;
        }
        k += 1;
    }
    assert forall|m: int| 0 <= m < end - start implies chars@.subrange(start as int, end as int)[m]
        != c by {
        assert(chars@.subrange(start as int, end as int)[m] == chars@[start + m]);
    }
    false
}

/// Whether `content` (the text between `<` and `>`) is an autolink target.
pub fn is_autolink_target(content: &[char]) -> (res: bool)
    ensures
        res == spec_is_autolink_target(content@),
{
    let n = content.len();
    if n == 0 {
        return false;
    }
    let mut k: usize = 0;
    while k < n
        invariant
            n == content@.len(),
            k <= n,
            forall|m: int| 0 <= m < k ==> !spec_is_whitespace(#[trigger] content@[m]),
        decreases n - k,
    {
        if is_whitespace(content[k]) {
            return false;
        }
        k += 1;
    }
    assert(!spec_is_whitespace(content@[0]));
    let http = ['h', 't', 't', 'p', ':', '/', '/'];
    let https = ['h', 't', 't', 'p', 's', ':', '/', '/'];
    let mailto = ['m', 'a', 'i', 'l', 't', 'o', ':'];
    assert(content@.skip(0) =~= content@);
    assert(http@ =~= seq!['h', 't', 't', 'p', ':', '/', '/']);
    assert(https@ =~= seq!['h', 't', 't', 'p', 's', ':', '/', '/']);
    assert(mailto@ =~= seq!['m', 'a', 'i', 'l', 't', 'o', ':']);
    if starts_with_at(content, 0, http.as_slice()) || starts_with_at(content, 0, https.as_slice())
        || starts_with_at(content, 0, mailto.as_slice()) {
        return true;
    }
    let at = match find_char_from(content, '@', 0, false) {
        Some(p) => p,
        None => return false,
    };
    proof {
        lemma_find_char(content@, '@', 0, false);
    }
    if find_char_from(content, '@', at + 1, false).is_some() {
        return false;
    }
    let ghost domain = content@.skip(at + 1);
    assert(content@.subrange(at + 1, n as int) =~= domain);
    if at == 0 || !range_contains(content, at + 1, n, '.') {
        return false;
    }
    content[at + 1] != '.' && content[n - 1] != '.'
}

/// The autolink pass from position `i` on: `<` and the next unescaped `>`
/// around an autolink target.
pub open spec fn autolink_pass(chars: Seq<char>, styles: Seq<MdStyle>, i: int) -> Seq<MdStyle>
    decreases chars.len() - i,
{
    if i < 0 || i >= chars.len() {
        styles
    } else if chars[i] != '<' || escaped(chars, i) {
        autolink_pass(chars, styles, i + 1)
    } else {
        match find_char(chars, '>', i + 1, true) {
            None => autolink_pass(chars, styles, i + 1),
            Some(e) => if e <= i + 1 || !spec_is_autolink_target(chars.subrange(i + 1, e)) {
                autolink_pass(chars, styles, i + 1)
            } else {
                proof {
                    lemma_find_char(chars, '>', i + 1, true);
                }
                autolink_pass(
                    chars,
                    paint(
                        styles.update(i, MdStyle::Marker).update(e, MdStyle::Marker),
                        i + 1,
                        e,
                        MdStyle::LinkUrl,
                    ),
                    e + 1,
                )
            },
        }
    }
}

/// Styles the autolinks of the line.
pub fn apply_autolink_styles(chars: &[char], styles: &mut Vec<MdStyle>)
    requires
        old(styles)@.len() >= chars@.len(),
    ensures
        final(styles)@ == autolink_pass(chars@, old(styles)@, 0),
        final(styles)@.len() == old(styles)@.len(),
{
    let mut i: usize = 0;
    while i < chars.len()
        invariant
            i <= chars@.len(),
            styles@.len() == old(styles)@.len(),
            old(styles)@.len() >= chars@.len(),
            autolink_pass(chars@, styles@, i as int) == autolink_pass(chars@, old(styles)@, 0),
        decreases chars@.len() - i,
    {
        if chars[i] != '<' || is_escaped_marker(chars, i) {
            i += 1;
            continue;
        }
        let end = match find_char_from(chars, '>', i + 1, true) {
            Some(e) => e,
            None => {
                i += 1;
                continue;
            },
        };
        proof {
            lemma_find_char(chars@, '>', i + 1, true);
        }
        if end <= i + 1 {
            i += 1;
            continue;
        }
        let inner = slice_of_chars(chars, i + 1, end);
        if !is_autolink_target(inner.as_slice()) {
            i += 1;
            continue;
        }
        styles.set(i, MdStyle::Marker);
        styles.set(end, MdStyle::Marker);
        paint_style_range(styles, i + 1, end, MdStyle::LinkUrl);
        i = end + 1;
    }
}

/// A copy of `chars[start..end]`.
fn slice_of_chars(chars: &[char], start: usize, end: usize) -> (res: Vec<char>)
    requires
        start <= end <= chars@.len(),
    ensures
        res@ == chars@.subrange(start as int, end as int),
{
    let mut v: Vec<char> = Vec::new();
    let mut k = start;
    while k < end
        invariant
            start <= k <= end <= chars@.len(),
            v@ == chars@.subrange(start as int, k as int),
        decreases end - k,
    {
        v.push(chars[k]);
        assert(v@ =~= chars@.subrange(start as int, k + 1));
        k += 1;
    }
    v
}

/// The inline-code pass from position `i` on: an unescaped backtick and the
/// next unescaped backtick enclose code; a backtick without a partner is a
/// marker.
pub open spec fn code_pass(chars: Seq<char>, styles: Seq<MdStyle>, i: int) -> Seq<MdStyle>
    decreases chars.len() - i,
{
    if i < 0 || i >= chars.len() {
        styles
    } else if chars[i] != '`' || escaped(chars, i) {
        code_pass(chars, styles, i + 1)
    } else {
        match find_char(chars, '`', i + 1, true) {
            None => code_pass(chars, styles.update(i, MdStyle::Marker), i + 1),
            Some(e) => {
                proof {
                    lemma_find_char(chars, '`', i + 1, true);
                }
                code_pass(
                    chars,
                    paint(
                        styles.update(i, MdStyle::Marker).update(e, MdStyle::Marker),
                        i + 1,
                        e,
                        MdStyle::Code,
                    ),
                    e + 1,
                )
            },
        }
    }
}

/// Styles the inline code spans of the line.
pub fn apply_inline_code_styles(chars: &[char], styles: &mut Vec<MdStyle>)
    requires
        old(styles)@.len() >= chars@.len(),
    ensures
        final(styles)@ == code_pass(chars@, old(styles)@, 0),
        final(styles)@.len() == old(styles)@.len(),
{
    let mut i: usize = 0;
    while i < chars.len()
        invariant
            i <= chars@.len(),
            styles@.len() == old(styles)@.len(),
            old(styles)@.len() >= chars@.len(),
            code_pass(chars@, styles@, i as int) == code_pass(chars@, old(styles)@, 0),
        decreases chars@.len() - i,
    {
        if chars[i] != '`' || is_escaped_marker(chars, i) {
            i += 1;
            continue;
        }
        match find_char_from(chars, '`', i + 1, true) {
            None => {
                styles.set(i, MdStyle::Marker);
                i += 1;
            },
            Some(end) => {
                proof {
                    lemma_find_char(chars@, '`', i + 1, true);
                }
                styles.set(i, MdStyle::Marker);
                styles.set(end, MdStyle::Marker);
                paint_style_range(styles, i + 1, end, MdStyle::Code);
                i = end + 1;
            },
        }
    }
}

/// Whether `chars[i..i + w]` exists and is `w` copies of `m`.
pub open spec fn run_at(chars: Seq<char>, i: int, m: char, w: int) -> bool {
    0 <= i && i + w <= chars.len() && forall|k: int| i <= k < i + w ==> #[trigger] chars[k] == m
}

/// Whether a run of `w` underscores at `i` stands inside a word (an
/// alphanumeric character on both sides), where it marks nothing.
pub open spec fn intraword_underscore(chars: Seq<char>, m: char, w: int, i: int) -> bool {
    let total = chars.len();
    m == '_' && i > 0 && i + w < total && spec_is_ascii_alphanumeric(chars[i - 1])
        && spec_is_ascii_alphanumeric(chars[i + w])
}

/// Whether a single delimiter at `i` is part of a longer run of `m`.
pub open spec fn next_to_marker(chars: Seq<char>, m: char, i: int) -> bool {
    (i > 0 && chars[i - 1] == m) || (i + 1 < chars.len() && chars[i + 1] == m)
}

/// Whether the `w` copies of `m` at `i` may open a span: not escaped, still
/// restylable, (for a single delimiter) not part of a longer run, not inside
/// a word (for `_`), and followed by a character that is not whitespace.
pub open spec fn opens_span(chars: Seq<char>, styles: Seq<MdStyle>, m: char, w: int, i: int) -> bool {
    &&& run_at(chars, i, m, w)
    &&& !escaped(chars, i)
    &&& restylable(styles, i, i + w)
    &&& (w == 1 ==> !next_to_marker(chars, m, i))
    &&& !intraword_underscore(chars, m, w, i)
    &&& i + w < chars.len()
    &&& !spec_is_whitespace(chars[i + w])
}

/// Whether the `w` copies of `m` at `j` may close a span whose content
/// begins at `cs`: not escaped, restylable, after a non-empty content that
/// is restylable, holds a non-blank character and does not end in
/// whitespace, (for a single delimiter) not part of a longer run, and not
/// inside a word (for `_`).
pub open spec fn closes_span(chars: Seq<char>, styles: Seq<MdStyle>, m: char, w: int, cs: int, j: int) -> bool {
    &&& run_at(chars, j, m, w)
    &&& !escaped(chars, j)
    &&& restylable(styles, j, j + w)
    &&& j > cs
    &&& !spec_is_whitespace(chars[j - 1])
    &&& restylable(styles, cs, j)
    &&& has_non_ws(chars, cs, j)
    &&& (w == 1 ==> (j == 0 || chars[j - 1] != m) && (j + 1 >= chars.len() || chars[j + 1] != m))
    &&& !intraword_underscore(chars, m, w, j)
}

/// The first position at or after `j` that closes a span opened with
/// content starting at `cs`.
pub open spec fn find_close(chars: Seq<char>, styles: Seq<MdStyle>, m: char, w: int, cs: int, j: int) -> Option<int>
    decreases chars.len() - j,
{
    if j < 0 || j + w > chars.len() || w <= 0 {
        None
    } else if closes_span(chars, styles, m, w, cs, j) {
        Some(j)
    } else {
        find_close(chars, styles, m, w, cs, j + 1)
    }
}

/// A closing delimiter found is at or after the start and closes the span.
pub proof fn lemma_find_close(chars: Seq<char>, styles: Seq<MdStyle>, m: char, w: int, cs: int, j: int)
    ensures
        find_close(chars, styles, m, w, cs, j) matches Some(e) ==> j <= e && closes_span(
            chars,
            styles,
            m,
            w,
            cs,
            e,
        ),
    decreases chars.len() - j,
{
    if 0 <= j && j + w <= chars.len() && w > 0 && !closes_span(chars, styles, m, w, cs, j) {
        lemma_find_close(chars, styles, m, w, cs, j + 1);
    }
}

/// The delimiter pass from position `i` on: each run of `w` copies of `m`
/// that opens a span, with the first run that closes it, becomes markers
/// around content styled `fill`; the scan goes on after the closing run.
pub open spec fn delim_pass(chars: Seq<char>, styles: Seq<MdStyle>, m: char, w: int, fill: MdStyle, i: int) -> Seq<MdStyle>
    decreases chars.len() - i,
{
    if i < 0 || w <= 0 || i + w > chars.len() {
        styles
    } else if !opens_span(chars, styles, m, w, i) {
        delim_pass(chars, styles, m, w, fill, i + 1)
    } else {
        match find_close(chars, styles, m, w, i + w, i + w) {
            None => delim_pass(chars, styles, m, w, fill, i + 1),
            Some(end) => {
                proof {
                    lemma_find_close(chars, styles, m, w, i + w, i + w);
                }
                delim_pass(
                    chars,
                    paint(
                        paint(paint(styles, i, i + w, MdStyle::Marker), end, end + w, MdStyle::Marker),
                        i + w,
                        end,
                        fill,
                    ),
                    m,
                    w,
                    fill,
                    end + w,
                )
            },
        }
    }
}

/// Whether `st` is a style that inline markup may still change: plain,
/// heading or quote text.
pub open spec fn plain_style(st: MdStyle) -> bool {
    st == MdStyle::Normal || st == MdStyle::Heading || st == MdStyle::Quote
}

/// A delimiter pass keeps the number of styles, leaves every slot that is
/// not plain, heading or quote text as it was, and changes a slot only into
/// a marker or the fill style.
pub proof fn law_delim_pass_changes_only_plain_text(
    chars: Seq<char>,
    styles: Seq<MdStyle>,
    m: char,
    w: int,
    fill: MdStyle,
    i: int,
)
    ensures
        delim_pass(chars, styles, m, w, fill, i).len() == styles.len(),
        forall|k: int|
            0 <= k < styles.len() ==> {
                let r = #[trigger] delim_pass(chars, styles, m, w, fill, i)[k];
                &&& !plain_style(styles[k]) ==> r == styles[k]
                &&& r != styles[k] ==> r == MdStyle::Marker || r == fill
            },
    decreases chars.len() - i,
{
    if i < 0 || w <= 0 || i + w > chars.len() {
    } else if !opens_span(chars, styles, m, w, i) {
        law_delim_pass_changes_only_plain_text(chars, styles, m, w, fill, i + 1);
    } else {
        match find_close(chars, styles, m, w, i + w, i + w) {
            None => {
                law_delim_pass_changes_only_plain_text(chars, styles, m, w, fill, i + 1);
            },
            Some(end) => {
                lemma_find_close(chars, styles, m, w, i + w, i + w);
                let s1 = paint(
                    paint(paint(styles, i, i + w, MdStyle::Marker), end, end + w, MdStyle::Marker),
                    i + w,
                    end,
                    fill,
                );
                law_delim_pass_changes_only_plain_text(chars, s1, m, w, fill, end + w);
                assert(delim_pass(chars, styles, m, w, fill, i) == delim_pass(chars, s1, m, w, fill, end + w));
                assert forall|k: int| 0 <= k < styles.len() implies {
                    let r = #[trigger] delim_pass(chars, styles, m, w, fill, i)[k];
                    &&& !plain_style(styles[k]) ==> r == styles[k]
                    &&& r != styles[k] ==> r == MdStyle::Marker || r == fill
                } by {
                    let r = delim_pass(chars, s1, m, w, fill, end + w)[k];
                    if i <= k < i + w {
                        assert(plain_style(styles[k]));
                    } else if end <= k < end + w {
                        assert(plain_style(styles[k]));
                    } else if i + w <= k < end {
                        assert(plain_style(styles[k]));
                    } else {
                        assert(s1[k] == styles[k]);
                    }
                    assert(s1[k] == styles[k] || s1[k] == MdStyle::Marker || s1[k] == fill);
                    assert(!plain_style(s1[k]) ==> r == s1[k]);
                }
            },
        }
    }
}

/// Whether some character of `chars[start..end]` is not whitespace.
fn any_non_whitespace(chars: &[char], start: usize, end: usize) -> (res: bool)
    requires
        start <= end <= chars@.len(),
    ensures
        res == has_non_ws(chars@, start as int, end as int),
{
    let mut k = start;
    while k < end
        invariant
            start <= k <= end <= chars@.len(),
            forall|q: int| start <= q < k ==> spec_is_whitespace(#[trigger] chars@[q]),
        decreases end - k,
    {
        if !is_whitespace(chars[k]) {
            return true;
        }
        k += 1;
    }
    false
}

/// Whether `chars[i..i + w]` is `w` copies of `m`.
fn is_run_at(chars: &[char], i: usize, m: char, w: usize) -> (res: bool)
    requires
        i + w <= chars@.len(),
    ensures
        res == run_at(chars@, i as int, m, w as int),
{
    let mut k: usize = 0;
    let total = chars.len();
    while k < w
        invariant
            total == chars@.len(),
            i + w <= chars@.len(),
            k <= w,
            forall|q: int| i <= q < i + k ==> #[trigger] chars@[q] == m,
        decreases w - k,
    {
        if chars[i + k] != m {
            return false;
        }
        k += 1;
    }
    true
}

/// Whether the run of `w` copies of `m` at `i` sits inside a word.
fn is_intraword_underscore(chars: &[char], m: char, w: usize, i: usize) -> (res: bool)
    requires
        i + w <= chars@.len(),
    ensures
        res == intraword_underscore(chars@, m, w as int, i as int),
{
    let total = chars.len();
    m == '_' && i > 0 && i + w < total && is_ascii_alphanumeric(chars[i - 1])
        && is_ascii_alphanumeric(chars[i + w])
}

/// Whether the `w` copies of `m` at `i` open a span.
fn span_opens(chars: &[char], styles: &Vec<MdStyle>, m: char, w: usize, i: usize) -> (res: bool)
    requires
        i + w <= chars@.len(),
        styles@.len() >= chars@.len(),
        1 <= w <= 3,
    ensures
        res == opens_span(chars@, styles@, m, w as int, i as int),
{
    let total = chars.len();
    if !is_run_at(chars, i, m, w) || is_escaped_marker(chars, i) || !can_restyle_span(
        styles,
        i,
        i + w,
    ) {
        return false;
    }
    if w == 1 && ((i > 0 && chars[i - 1] == m) || (i + 1 < chars.len() && chars[i + 1] == m)) {
        return false;
    }
    if is_intraword_underscore(chars, m, w, i) {
        return false;
    }
    let content_start = i + w;
    !(content_start >= chars.len() || is_whitespace(chars[content_start]))
}

/// The first position at or after `cs` that closes a span with content
/// starting at `cs`.
fn find_span_close(chars: &[char], styles: &Vec<MdStyle>, m: char, w: usize, cs: usize) -> (res:
    Option<usize>)
    requires
        styles@.len() >= chars@.len(),
        1 <= w <= 3,
        cs <= chars@.len(),
    ensures
        match res {
            Some(e) => find_close(chars@, styles@, m, w as int, cs as int, cs as int) == Some(
                e as int,
            ),
            None => find_close(chars@, styles@, m, w as int, cs as int, cs as int) is None,
        },
{
    let len = chars.len();
    let mut j = cs;
    while j < len && len - j >= w
        invariant
            len == chars@.len(),
            styles@.len() >= len,
            1 <= w <= 3,
            cs <= j,
            find_close(chars@, styles@, m, w as int, cs as int, j as int) == find_close(
                chars@,
                styles@,
                m,
                w as int,
                cs as int,
                cs as int,
            ),
        decreases len - j,
    {
        if is_run_at(chars, j, m, w) && !is_escaped_marker(chars, j) && can_restyle_span(
            styles,
            j,
            j + w,
        ) && j > cs && !is_whitespace(chars[j - 1]) && can_restyle_span(styles, cs, j)
            && any_non_whitespace(chars, cs, j) && (w != 1 || ((j == 0 || chars[j - 1] != m) && (
        j + 1 >= len || chars[j + 1] != m))) && !is_intraword_underscore(chars, m, w, j) {
            return Some(j);
        }
        j += 1;
    }
    None
}

/// Runs the delimiter pass for `w` copies of `m`, styling content `fill`.
fn apply_delimited_style(chars: &[char], styles: &mut Vec<MdStyle>, m: char, w: usize, fill: MdStyle)
    requires
        old(styles)@.len() >= chars@.len(),
        1 <= w <= 3,
    ensures
        final(styles)@ == delim_pass(chars@, old(styles)@, m, w as int, fill, 0),
        final(styles)@.len() == old(styles)@.len(),
{
    let len = chars.len();
    let mut i: usize = 0;
    while i < len && len - i >= w
        invariant
            len == chars@.len(),
            styles@.len() == old(styles)@.len(),
            old(styles)@.len() >= len,
            1 <= w <= 3,
            delim_pass(chars@, styles@, m, w as int, fill, i as int) == delim_pass(
                chars@,
                old(styles)@,
                m,
                w as int,
                fill,
                0,
            ),
        decreases len - i,
    {
        if !span_opens(chars, styles, m, w, i) {
            i += 1;
            continue;
        }
        let content_start = i + w;
        match find_span_close(chars, styles, m, w, content_start) {
            None => {
                i += 1;
            },
            Some(end) => {
                proof {
                    lemma_find_close(chars@, styles@, m, w as int, content_start as int, content_start as int);
                }
                paint_style_range(styles, i, i + w, MdStyle::Marker);
                paint_style_range(styles, end, end + w, MdStyle::Marker);
                paint_style_range(styles, content_start, end, fill);
                i = end + w;
            },
        }
    }
}

/// Styles `***...***` (or `___...___`) spans as bold italic.
pub fn apply_triple_delimited_style(chars: &[char], styles: &mut Vec<MdStyle>, marker: char)
    requires
        old(styles)@.len() >= chars@.len(),
    ensures
        final(styles)@ == delim_pass(chars@, old(styles)@, marker, 3, MdStyle::EmphasisStrong, 0),
        final(styles)@.len() == old(styles)@.len(),
{
    apply_delimited_style(chars, styles, marker, 3, MdStyle::EmphasisStrong);
}

/// Styles spans between runs of two `marker`s with `fill_style`.
pub fn apply_double_delimited_style(chars: &[char], styles: &mut Vec<MdStyle>, marker: char, fill_style: MdStyle)
    requires
        old(styles)@.len() >= chars@.len(),
    ensures
        final(styles)@ == delim_pass(chars@, old(styles)@, marker, 2, fill_style, 0),
        final(styles)@.len() == old(styles)@.len(),
{
    apply_delimited_style(chars, styles, marker, 2, fill_style);
}

/// Styles spans between single `marker`s with `fill_style`.
pub fn apply_single_delimited_style(chars: &[char], styles: &mut Vec<MdStyle>, marker: char, fill_style: MdStyle)
    requires
        old(styles)@.len() >= chars@.len(),
    ensures
        final(styles)@ == delim_pass(chars@, old(styles)@, marker, 1, fill_style, 0),
        final(styles)@.len() == old(styles)@.len(),
{
    apply_delimited_style(chars, styles, marker, 1, fill_style);
}

/// `***`/`___` spans, bold italic.
pub open spec fn emphasis_strong_pass(chars: Seq<char>, styles: Seq<MdStyle>) -> Seq<MdStyle> {
    delim_pass(
        chars,
        delim_pass(chars, styles, '*', 3, MdStyle::EmphasisStrong, 0),
        '_',
        3,
        MdStyle::EmphasisStrong,
        0,
    )
}

/// `~~` spans, struck through.
pub open spec fn strike_pass(chars: Seq<char>, styles: Seq<MdStyle>) -> Seq<MdStyle> {
    delim_pass(chars, styles, '~', 2, MdStyle::Strike, 0)
}

/// `**`/`__` spans, bold.
pub open spec fn strong_pass(chars: Seq<char>, styles: Seq<MdStyle>) -> Seq<MdStyle> {
    delim_pass(chars, delim_pass(chars, styles, '*', 2, MdStyle::Strong, 0), '_', 2, MdStyle::Strong, 0)
}

/// `*`/`_` spans, italic.
pub open spec fn emphasis_pass(chars: Seq<char>, styles: Seq<MdStyle>) -> Seq<MdStyle> {
    delim_pass(
        chars,
        delim_pass(chars, styles, '*', 1, MdStyle::Emphasis, 0),
        '_',
        1,
        MdStyle::Emphasis,
        0,
    )
}

/// Styles bold italic spans.
pub fn apply_emphasis_strong_styles(chars: &[char], styles: &mut Vec<MdStyle>)
    requires
        old(styles)@.len() >= chars@.len(),
    ensures
        final(styles)@ == emphasis_strong_pass(chars@, old(styles)@),
        final(styles)@.len() == old(styles)@.len(),
{
    apply_triple_delimited_style(chars, styles, '*');
    apply_triple_delimited_style(chars, styles, '_');
}

/// Styles struck-through spans.
pub fn apply_strikethrough_styles(chars: &[char], styles: &mut Vec<MdStyle>)
    requires
        old(styles)@.len() >= chars@.len(),
    ensures
        final(styles)@ == strike_pass(chars@, old(styles)@),
        final(styles)@.len() == old(styles)@.len(),
{
    apply_double_delimited_style(chars, styles, '~', MdStyle::Strike);
}

/// Styles bold spans.
pub fn apply_strong_styles(chars: &[char], styles: &mut Vec<MdStyle>)
    requires
        old(styles)@.len() >= chars@.len(),
    ensures
        final(styles)@ == strong_pass(chars@, old(styles)@),
        final(styles)@.len() == old(styles)@.len(),
{
    apply_double_delimited_style(chars, styles, '*', MdStyle::Strong);
    apply_double_delimited_style(chars, styles, '_', MdStyle::Strong);
}

/// Styles italic spans.
pub fn apply_emphasis_styles(chars: &[char], styles: &mut Vec<MdStyle>)
    requires
        old(styles)@.len() >= chars@.len(),
    ensures
        final(styles)@ == emphasis_pass(chars@, old(styles)@),
        final(styles)@.len() == old(styles)@.len(),
{
    apply_single_delimited_style(chars, styles, '*', MdStyle::Emphasis);
    apply_single_delimited_style(chars, styles, '_', MdStyle::Emphasis);
}

/// The block-level markers of a line: the `#`s of a heading (then heading
/// text), the `>` of a quote (then quote text), or a list marker.
pub open spec fn block_pass(chars: Seq<char>, styles: Seq<MdStyle>) -> Seq<MdStyle> {
    let len = chars.len() as int;
    let f = first_non_ws(chars);
    if f >= len {
        styles
    } else {
        match spec_heading_start(chars, f) {
            Some(cs) => paint(paint(styles, f, cs, MdStyle::Marker), cs, len, MdStyle::Heading),
            None => if chars[f] == '>' {
                let me = if f + 1 < len && chars[f + 1] == ' ' {
                    f + 2
                } else {
                    f + 1
                };
                paint(paint(styles, f, me, MdStyle::Marker), me, len, MdStyle::Quote)
            } else {
                match spec_list_marker(chars, f) {
                    Some((a, b)) => paint(styles, a, b, MdStyle::Marker),
                    None => styles,
                }
            },
        }
    }
}

/// The inline passes, in the order they run: links, HTML tags, autolinks,
/// inline code, bold italic, strike-through, bold, italic.
pub open spec fn inline_passes(chars: Seq<char>, styles: Seq<MdStyle>) -> Seq<MdStyle> {
    let s1 = link_pass(chars, styles, 0);
    let s2 = html_pass(chars, s1, 0);
    let s3 = autolink_pass(chars, s2, 0);
    let s4 = code_pass(chars, s3, 0);
    let s5 = emphasis_strong_pass(chars, s4);
    let s6 = strike_pass(chars, s5);
    let s7 = strong_pass(chars, s6);
    emphasis_pass(chars, s7)
}

/// The style of every character of a line: all code inside a fence, a
/// fenced or an indented code block; all markers for a setext underline or
/// a thematic break; otherwise the block markers and then the inline passes,
/// over heading text when the next line underlines this one.
pub open spec fn spec_styles_for_line(chars: Seq<char>, in_code_block: bool, setext_heading: bool, indented_code: bool) -> Seq<MdStyle> {
    let len = chars.len();
    if len == 0 {
        Seq::empty()
    } else if spec_is_fence(chars) || in_code_block || indented_code {
        uniform(len, MdStyle::Code)
    } else if spec_is_setext_underline(chars) || spec_is_thematic_break(chars) {
        uniform(len, MdStyle::Marker)
    } else {
        let base = if setext_heading {
            uniform(len, MdStyle::Heading)
        } else {
            uniform(len, MdStyle::Normal)
        };
        inline_passes(chars, block_pass(chars, base))
    }
}

/// The highlighting style of each character of a markdown line.
pub fn markdown_styles_for_line(chars: &[char], in_code_block: bool, setext_heading: bool, indented_code: bool) -> (res: Vec<MdStyle>)
    ensures
        res@ == spec_styles_for_line(chars@, in_code_block, setext_heading, indented_code),
        res@.len() == chars@.len(),
{
    let len = chars.len();
    let mut styles: Vec<MdStyle> = Vec::new();
    let mut k: usize = 0;
    while k < len
        invariant
            len == chars@.len(),
            k <= len,
            styles@ == uniform(k as nat, MdStyle::Normal),
        decreases len - k,
    {
        styles.push(MdStyle::Normal);
        k += 1;
        assert(styles@ =~= uniform(k as nat, MdStyle::Normal));
    }
    if len == 0 {
        assert(styles@ =~= Seq::<MdStyle>::empty());
        return styles;
    }
    if is_fenced_code_chars(chars) || in_code_block || indented_code {
        paint_style_range(&mut styles, 0, len, MdStyle::Code);
        assert(styles@ =~= uniform(len as nat, MdStyle::Code));
        return styles;
    }
    if setext_heading {
        paint_style_range(&mut styles, 0, len, MdStyle::Heading);
        assert(styles@ =~= uniform(len as nat, MdStyle::Heading));
    }
    if is_setext_underline_chars(chars) || is_thematic_break_chars(chars) {
        paint_style_range(&mut styles, 0, len, MdStyle::Marker);
        assert(styles@ =~= uniform(len as nat, MdStyle::Marker));
        return styles;
    }
    let ghost base = styles@;
    let first_non_ws = first_non_whitespace(chars);
    if first_non_ws < len {
        match markdown_heading_start(chars, first_non_ws) {
            Some(content_start) => {
                paint_style_range(&mut styles, first_non_ws, content_start, MdStyle::Marker);
                paint_style_range(&mut styles, content_start, len, MdStyle::Heading);
            },
            None => {
                if chars[first_non_ws] == '>' {
                    let marker_end = if first_non_ws + 1 < len && chars[first_non_ws + 1] == ' ' {
                        first_non_ws + 2
                    } else {
                        first_non_ws + 1
                    };
                    paint_style_range(&mut styles, first_non_ws, marker_end, MdStyle::Marker);
                    paint_style_range(&mut styles, marker_end, len, MdStyle::Quote);
                } else {
                    match markdown_list_marker(chars, first_non_ws) {
                        Some((marker_start, marker_end)) => {
                            paint_style_range(&mut styles, marker_start, marker_end, MdStyle::Marker);
                        },
                        None => {},
                    }
                }
            },
        }
    }
    assert(styles@ == block_pass(chars@, base));
    apply_link_styles(chars, &mut styles);
    apply_html_tag_styles(chars, &mut styles);
    apply_autolink_styles(chars, &mut styles);
    apply_inline_code_styles(chars, &mut styles);
    apply_emphasis_strong_styles(chars, &mut styles);
    apply_strikethrough_styles(chars, &mut styles);
    apply_strong_styles(chars, &mut styles);
    apply_emphasis_styles(chars, &mut styles);
    styles
}

/// The value of the decimal digits `s`.
pub open spec fn decimal_value(s: Seq<char>) -> nat
    decreases s.len(),
{
    if s.len() == 0 {
        0
    } else {
        decimal_value(s.drop_last()) * 10 + ((s.last() as u32) - ('0' as u32)) as nat
    }
}

/// The digit character for `d < 10`.
pub open spec fn digit_char(d: nat) -> char {
    ((d + 48) as u8) as char
}

/// The decimal representation of `n`, without leading zeros.
pub open spec fn decimal(n: nat) -> Seq<char>
    decreases n,
{
    if n < 10 {
        seq![digit_char(n)]
    } else {
        decimal(n / 10).push(digit_char(n % 10))
    }
}

/// The number of an ordered list item `N. text` whose `N` stands at
/// `[start, idx)`; `None` when it does not fit in a `usize`.
pub open spec fn list_number(c: Seq<char>, start: int, idx: int) -> Option<nat> {
    let v = decimal_value(c.subrange(start, idx));
    if v <= usize::MAX {
        Some(v)
    } else {
        None
    }
}

/// The prefix that continues the list item before the cursor on a new line:
/// the same indentation and bullet, or the next number; `None` when the text
/// is not a list item with content.
pub open spec fn spec_list_continuation(c: Seq<char>) -> Option<Seq<char>> {
    let len = c.len() as int;
    let s = first_non_ws(c);
    if len == 0 || s >= len {
        None
    } else if s + 1 < len && (c[s] == '-' || c[s] == '*' || c[s] == '+') && c[s + 1] == ' ' {
        if all_ws(c.skip(s + 2)) {
            None
        } else {
            Some(c.take(s) + seq![c[s], ' '])
        }
    } else {
        let idx = digit_run_end(c, s);
        if idx > s && idx + 1 < len && c[idx] == '.' && c[idx + 1] == ' ' && !all_ws(
            c.skip(idx + 2),
        ) {
            match list_number(c, s, idx) {
                Some(v) => Some(c.take(s) + decimal(v + 1) + seq!['.', ' ']),
                None => None,
            }
        } else {
            None
        }
    }
}

/// Whether the ordered list item before the cursor carries the number
/// `usize::MAX`, whose successor does not fit in a `usize`.
pub open spec fn list_number_is_max(c: Seq<char>) -> bool {
    let len = c.len() as int;
    let s = first_non_ws(c);
    let idx = digit_run_end(c, s);
    &&& s < len
    &&& !(s + 1 < len && (c[s] == '-' || c[s] == '*' || c[s] == '+') && c[s + 1] == ' ')
    &&& idx > s && idx + 1 < len && c[idx] == '.' && c[idx + 1] == ' '
    &&& !all_ws(c.skip(idx + 2))
    &&& list_number(c, s, idx) == Some(usize::MAX as nat)
}

proof fn lemma_decimal_value_prefix(s: Seq<char>, j: int)
    requires
        0 <= j <= s.len(),
    ensures
        decimal_value(s.take(j)) <= decimal_value(s),
    decreases s.len() - j,
{
    if j < s.len() {
        lemma_decimal_value_prefix(s, j + 1);
        assert(s.take(j + 1).drop_last() =~= s.take(j));
    } else {
        assert(s.take(j) =~= s);
    }
}

/// Parses the digits `chars[start..end]`; `None` when the value does not
/// fit in a `usize`.
fn parse_digits(chars: &[char], start: usize, end: usize) -> (res: Option<usize>)
    requires
        start <= end <= chars@.len(),
        forall|k: int| start <= k < end ==> spec_is_ascii_digit(#[trigger] chars@[k]),
    ensures
        match res {
            Some(v) => v == decimal_value(chars@.subrange(start as int, end as int)),
            None => decimal_value(chars@.subrange(start as int, end as int)) > usize::MAX,
        },
{
    let ghost digits = chars@.subrange(start as int, end as int);
    let mut v: usize = 0;
    let mut k = start;
    assert(digits.take(0) =~= Seq::<char>::empty());
    while k < end
        invariant
            start <= k <= end <= chars@.len(),
            digits == chars@.subrange(start as int, end as int),
            forall|q: int| start <= q < end ==> spec_is_ascii_digit(#[trigger] chars@[q]),
            v == decimal_value(digits.take(k - start)),
        decreases end - k,
    {
        proof {
            assert(digits.take(k + 1 - start).drop_last() =~= digits.take(k - start));
            assert(digits.take(k + 1 - start).last() == chars@[k as int]);
            lemma_decimal_value_prefix(digits, k + 1 - start);
        }
        let d = (chars[k] as u32 - '0' as u32) as usize;
        let next = match v.checked_mul(10) {
            Some(t) => t.checked_add(d),
            None => None,
        };
        match next {
            Some(n) => {
                v = n;
            },
            None => {
                return None;
            },
        }
        k += 1;
    }
    assert(digits.take(k - start) =~= digits);
    Some(v)
}

proof fn lemma_decimal_step(n: nat)
    requires
        n >= 10,
    ensures
        decimal(n) == decimal(n / 10).push(digit_char(n % 10)),
{
}

/// The decimal representation of `n`.
pub fn decimal_string(n: usize) -> (res: String)
    ensures
        res@ == decimal(n as nat),
{
    let mut acc: Vec<char> = Vec::new();
    let mut m = n;
    while m >= 10
        invariant
            decimal(n as nat) == decimal(m as nat) + acc@.reverse(),
        decreases m,
    {
        let d = m % 10;
        let c = ((d as u8) + 48) as char;
        proof {
            lemma_decimal_step(m as nat);
            assert(acc@.push(c).reverse() =~= seq![c] + acc@.reverse());
        }
        acc.push(c);
        m = m / 10;
    }
    let mut out = String::new();
    push_char(&mut out, ((m as u8) + 48) as char);
    let mut k = acc.len();
    while k > 0
        invariant
            k <= acc@.len(),
            out@ == decimal(m as nat) + acc@.subrange(k as int, acc@.len() as int).reverse(),
            decimal(n as nat) == decimal(m as nat) + acc@.reverse(),
        decreases k,
    {
        let ghost before = out@;
        push_char(&mut out, acc[k - 1]);
        assert(acc@.subrange(k - 1, acc@.len() as int).reverse() =~= acc@.subrange(
            k as int,
            acc@.len() as int,
        ).reverse().push(acc@[k - 1]));
        k -= 1;
    }
    assert(acc@.subrange(0, acc@.len() as int) =~= acc@);
    out
}

/// The prefix that continues the list item `before_cursor` on a new line.
pub fn markdown_list_continuation(before_cursor: &str) -> (res: Option<String>)
    requires
        !list_number_is_max(before_cursor@),
    ensures
        match res {
            Some(p) => spec_list_continuation(before_cursor@) == Some(p@),
            None => spec_list_continuation(before_cursor@) is None,
        },
{
    let chars = chars_of(before_cursor);
    let len = chars.len();
    if len == 0 {
        return None;
    }
    let indent_end = first_non_whitespace(chars.as_slice());
    if indent_end >= len {
        return None;
    }
    let start = indent_end;
    proof {
        lemma_ws_run_end(chars@, 0);
    }
    if len - start > 1 && (chars[start] == '-' || chars[start] == '*' || chars[start] == '+')
        && chars[start + 1] == ' ' {
        if !any_non_whitespace(chars.as_slice(), start + 2, len) {
            assert forall|k: int| 0 <= k < chars@.skip(start + 2).len() implies spec_is_whitespace(
                #[trigger] chars@.skip(start + 2)[k],
            ) by {
                assert(chars@.skip(start + 2)[k] == chars@[start + 2 + k]);
            }
            return None;
        }
        assert(!all_ws(chars@.skip(start + 2))) by {
            let q = choose|q: int| start + 2 <= q < len && !spec_is_whitespace(#[trigger] chars@[q]);
            assert(chars@.skip(start + 2)[q - (start + 2)] == chars@[q]);
        }
        let mut out = string_from_chars(chars.as_slice(), 0, start);
        push_char(&mut out, chars[start]);
        push_char(&mut out, ' ');
        assert(out@ =~= chars@.take(start as int) + seq![chars@[start as int], ' ']);
        return Some(out);
    }
    let idx = digit_end(chars.as_slice(), start);
    proof {
        lemma_digit_run_end(chars@, start as int);
    }
    if idx > start && idx < len && len - idx > 1 && chars[idx] == '.' && chars[idx + 1] == ' ' {
        if !any_non_whitespace(chars.as_slice(), idx + 2, len) {
            assert forall|k: int| 0 <= k < chars@.skip(idx + 2).len() implies spec_is_whitespace(
                #[trigger] chars@.skip(idx + 2)[k],
            ) by {
                assert(chars@.skip(idx + 2)[k] == chars@[idx + 2 + k]);
            }
            return None;
        }
        assert(!all_ws(chars@.skip(idx + 2))) by {
            let q = choose|q: int| idx + 2 <= q < len && !spec_is_whitespace(#[trigger] chars@[q]);
            assert(chars@.skip(idx + 2)[q - (idx + 2)] == chars@[q]);
        }
        match parse_digits(chars.as_slice(), start, idx) {
            Some(value) => {
                let mut out = string_from_chars(chars.as_slice(), 0, start);
                let number = decimal_string(value + 1);
                push_str(&mut out, number.as_str());
                push_char(&mut out, '.');
                push_char(&mut out, ' ');
                assert(out@ =~= chars@.take(start as int) + decimal((value + 1) as nat) + seq![
                    '.',
                    ' ',
                ]);
                return Some(out);
            },
            None => {
                return None;
            },
        }
    }
    None
}

/// Whether `before_cursor` is an ordered list item numbered `usize::MAX`,
/// whose successor does not fit in a `usize`.
pub fn list_number_overflows(before_cursor: &str) -> (res: bool)
    ensures
        res == list_number_is_max(before_cursor@),
{
    let chars = chars_of(before_cursor);
    let len = chars.len();
    if len == 0 {
        return false;
    }
    let start = first_non_whitespace(chars.as_slice());
    if start >= len {
        return false;
    }
    proof {
        lemma_ws_run_end(chars@, 0);
    }
    if len - start > 1 && (chars[start] == '-' || chars[start] == '*' || chars[start] == '+')
        && chars[start + 1] == ' ' {
        return false;
    }
    let idx = digit_end(chars.as_slice(), start);
    proof {
        lemma_digit_run_end(chars@, start as int);
    }
    if idx > start && idx < len && len - idx > 1 && chars[idx] == '.' && chars[idx + 1] == ' ' {
        if !any_non_whitespace(chars.as_slice(), idx + 2, len) {
            assert forall|k: int| 0 <= k < chars@.skip(idx + 2).len() implies spec_is_whitespace(
                #[trigger] chars@.skip(idx + 2)[k],
            ) by {
                assert(chars@.skip(idx + 2)[k] == chars@[idx + 2 + k]);
            }
            return false;
        }
        assert(!all_ws(chars@.skip(idx + 2))) by {
            let q = choose|q: int| idx + 2 <= q < len && !spec_is_whitespace(#[trigger] chars@[q]);
            assert(chars@.skip(idx + 2)[q - (idx + 2)] == chars@[q]);
        }
        return match parse_digits(chars.as_slice(), start, idx) {
            Some(value) => value == usize::MAX,
            None => false,
        };
    }
    false
}

/// A list item goes on with the same indentation, and its marker ends with
/// a space.
pub proof fn law_continuation_keeps_indent(c: Seq<char>)
    ensures
        spec_list_continuation(c) matches Some(p) ==> (p.take(first_non_ws(c)) == c.take(
            first_non_ws(c),
        ) && p.len() > first_non_ws(c) && p.last() == ' '),
{
    let s = first_non_ws(c);
    match spec_list_continuation(c) {
        Some(p) => {
            lemma_ws_run_end(c, 0);
            assert(p.take(s) =~= c.take(s));
        },
        None => {},
    }
}

/// `find_char` reaches the first `c` at or after `from`, when it is not
/// escaped.
proof fn lemma_find_char_at(chars: Seq<char>, c: char, from: int, j: int)
    requires
        0 <= from <= j < chars.len(),
        chars[j] == c,
        !escaped(chars, j),
        forall|k: int| from <= k < j ==> chars[k] != c,
    ensures
        find_char(chars, c, from, true) == Some(j),
    decreases j - from,
{
    if from < j {
        lemma_find_char_at(chars, c, from + 1, j);
    }
}

/// In a link `[t](u)` (with no `]`, `)` or backslash inside `t` and `u`),
/// the link pass styles the characters between the brackets as link text
/// and those between the parentheses as the link's target; the brackets and
/// parentheses become markers.
pub proof fn law_link_text_and_target(t: Seq<char>, u: Seq<char>, styles: Seq<MdStyle>)
    requires
        forall|k: int| 0 <= k < t.len() ==> #[trigger] t[k] != ']' && t[k] != '\\',
        forall|k: int| 0 <= k < u.len() ==> #[trigger] u[k] != ')' && u[k] != '\\',
        styles.len() >= t.len() + u.len() + 4,
    ensures
        ({
            let chars = seq!['['] + t + seq![']', '('] + u + seq![')'];
            let r = link_pass(chars, styles, 0);
            &&& r.len() == styles.len()
            &&& forall|k: int| 1 <= k <= t.len() ==> #[trigger] r[k] == MdStyle::LinkText
            &&& forall|k: int| t.len() + 3 <= k < t.len() + 3 + u.len() ==> #[trigger] r[k] == MdStyle::LinkUrl
            &&& r[0] == MdStyle::Marker
            &&& r[t.len() + 1int] == MdStyle::Marker
            &&& r[t.len() + 2int] == MdStyle::Marker
            &&& r[t.len() + 3int + u.len()] == MdStyle::Marker
        }),
{
    let chars = seq!['['] + t + seq![']', '('] + u + seq![')'];
    let n = chars.len() as int;
    let cb: int = t.len() + 1int;
    let cp: int = t.len() + 3int + u.len();
    assert(n == cp + 1);
    assert(chars[0] == '[');
    assert(forall|k: int| 1 <= k < cb ==> chars[k] == t[k - 1]);
    assert(chars[cb] == ']');
    assert(chars[cb + 1] == '(');
    assert(forall|k: int| cb + 2 <= k < cp ==> chars[k] == u[k - cb - 2]);
    assert(chars[cp] == ')');
    assert(backslashes_before(chars, 0) == 0);
    assert(!escaped(chars, 0));
    assert(chars[cb - 1] != '\\') by {
        if cb > 1 {
            assert(chars[cb - 1] == t[cb - 2]);
        }
    }
    assert(backslashes_before(chars, cb) == 0);
    assert(!escaped(chars, cb));
    assert(chars[cp - 1] != '\\') by {
        if cp - 1 > cb + 1 {
            assert(chars[cp - 1] == u[cp - 1 - cb - 2]);
        }
    }
    assert(backslashes_before(chars, cp) == 0);
    assert(!escaped(chars, cp));
    assert forall|k: int| 1 <= k < cb implies chars[k] != ']' by {
        assert(chars[k] == t[k - 1]);
    }
    assert forall|k: int| cb + 2 <= k < cp implies chars[k] != ')' by {
        assert(chars[k] == u[k - cb - 2]);
    }
    lemma_find_char_at(chars, ']', 1, cb);
    lemma_find_char_at(chars, ')', cb + 2, cp);
    let painted = link_paint(chars, styles, 0, cb, cp);
    assert(link_pass(chars, painted, cp + 1) == painted);
    assert(link_pass(chars, styles, 0) == painted);
}

/// The first character of `c` that is not whitespace is the first one after
/// the whitespace `ind`.
proof fn lemma_first_non_ws_after(ind: Seq<char>, rest: Seq<char>)
    requires
        all_ws(ind),
        rest.len() > 0,
        !spec_is_whitespace(rest[0]),
    ensures
        first_non_ws(ind + rest) == ind.len(),
{
    let c = ind + rest;
    crate::text::lemma_ws_run_end(c, 0);
    let e = first_non_ws(c);
    if e < ind.len() {
        assert(c[e] == ind[e]);
    } else if e > ind.len() {
        assert(spec_is_whitespace(c[ind.len() as int]));
        assert(c[ind.len() as int] == rest[0]);
    }
}

/// The digit run of `c` from `i` ends at `e` when `[i, e)` holds digits and
/// `e` does not.
proof fn lemma_digit_run_to(c: Seq<char>, i: int, e: int)
    requires
        0 <= i <= e < c.len(),
        forall|k: int| i <= k < e ==> spec_is_ascii_digit(#[trigger] c[k]),
        !spec_is_ascii_digit(c[e]),
    ensures
        digit_run_end(c, i) == e,
    decreases e - i,
{
    if i < e {
        lemma_digit_run_to(c, i + 1, e);
    }
}

/// Enter after a bullet item continues the list with the same indentation
/// and bullet when the item holds text, and ends it when the item is empty
/// (only whitespace after the bullet).
pub proof fn law_bullet_continuation(ind: Seq<char>, b: char, w: Seq<char>)
    requires
        all_ws(ind),
        b == '-' || b == '*' || b == '+',
    ensures
        all_ws(w) ==> spec_list_continuation(ind + seq![b, ' '] + w) is None,
        !all_ws(w) ==> spec_list_continuation(ind + seq![b, ' '] + w) == Some(ind + seq![b, ' ']),
{
    let c = ind + seq![b, ' '] + w;
    assert(c =~= ind + (seq![b, ' '] + w));
    lemma_first_non_ws_after(ind, seq![b, ' '] + w);
    let s = ind.len() as int;
    assert(c[s] == b);
    assert(c[s + 1] == ' ');
    assert(c.skip(s + 2) =~= w);
    assert(c.take(s) =~= ind);
}

/// Enter after a numbered item `N. ` continues the list with the same
/// indentation and the next number when the item holds text, and ends it
/// when the item is empty (only whitespace after `N. `).
pub proof fn law_numbered_continuation(ind: Seq<char>, d: Seq<char>, w: Seq<char>)
    requires
        all_ws(ind),
        d.len() > 0,
        forall|k: int| 0 <= k < d.len() ==> spec_is_ascii_digit(#[trigger] d[k]),
    ensures
        all_ws(w) ==> spec_list_continuation(ind + d + seq!['.', ' '] + w) is None,
        !all_ws(w) && decimal_value(d) < usize::MAX ==> spec_list_continuation(ind + d + seq!['.', ' '] + w)
            == Some(ind + decimal(decimal_value(d) + 1) + seq!['.', ' ']),
{
    let c = ind + d + seq!['.', ' '] + w;
    let s = ind.len() as int;
    let e: int = s + d.len();
    assert(c =~= ind + (d + seq!['.', ' '] + w));
    assert((d + seq!['.', ' '] + w)[0] == d[0]);
    lemma_first_non_ws_after(ind, d + seq!['.', ' '] + w);
    assert forall|k: int| s <= k < e implies spec_is_ascii_digit(#[trigger] c[k]) by {
        assert(c[k] == d[k - s]);
    }
    assert(c[e] == '.');
    assert(c[e + 1] == ' ');
    lemma_digit_run_to(c, s, e);
    assert(c[s] == d[0]);
    assert(c.skip(e + 2) =~= w);
    assert(c.take(s) =~= ind);
    assert(c.subrange(s, e) =~= d);
}

} // verus!
