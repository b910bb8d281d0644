//! Text shaping for the screen and the preview: clipping and padding to a
//! width, removing terminal escape sequences, and rewriting HTML headings.
use vstd::prelude::*;

use crate::document::min_int;
use crate::text::{
    chars_of, first_non_ws, is_whitespace, lemma_ws_run_end, push_char,
    push_chars, spec_is_whitespace, string_from_chars,
};

verus! {

/// The first `width` characters of `s` (all of it when shorter).
pub open spec fn clip(s: Seq<char>, width: int) -> Seq<char> {
    s.take(min_int(width, s.len() as int))
}

/// `n` spaces.
pub open spec fn spaces(n: nat) -> Seq<char> {
    Seq::new(n, |k: int| ' ')
}

/// The first `width` characters of `text`.
pub fn clip_to_char_width(text: &str, width: usize) -> (res: String)
    ensures
        res@ == clip(text@, width as int),
{
    let cs = chars_of(text);
    let n = if width < cs.len() {
        width
    } else {
        cs.len()
    };
    let r = string_from_chars(cs.as_slice(), 0, n);
    assert(r@ =~= clip(text@, width as int));
    r
}

/// `text` clipped to `width` characters, then padded with spaces to exactly
/// `width` characters.
pub fn pad_or_clip_to_char_width(text: &str, width: usize) -> (res: String)
    ensures
        res@ == clip(text@, width as int) + spaces((width - clip(text@, width as int).len()) as nat),
        res@.len() == width,
{
    let mut clipped = clip_to_char_width(text, width);
    let used = chars_of(clipped.as_str()).len();
    let mut k = used;
    assert(clipped@ + spaces(0) =~= clipped@);
    let ghost c0 = clipped@;
    while k < width
        invariant
            used <= k <= width,
            used == c0.len(),
            clipped@ == c0 + spaces((k - used) as nat),
        decreases width - k,
    {
        push_char(&mut clipped, ' ');
        assert(clipped@ =~= c0 + spaces((k + 1 - used) as nat));
        k += 1;
    }
    clipped
}

/// The escape character that starts a terminal escape sequence.
pub open spec fn esc_char() -> char {
    '\u{1b}'
}

/// Whether `c` ends a CSI escape sequence (a final byte `@` to `~`).
pub open spec fn is_csi_final(c: char) -> bool {
    '@' <= c <= '~'
}

/// The first position at or after `i` holding a CSI final byte.
pub open spec fn csi_end(s: Seq<char>, i: int) -> Option<int>
    decreases s.len() - i,
{
    if i < 0 || i >= s.len() {
        None
    } else if is_csi_final(s[i]) {
        Some(i)
    } else {
        csi_end(s, i + 1)
    }
}

/// The end found of an escape sequence is a final byte at or after `i`;
/// when none is found, no final byte follows `i`.
pub proof fn lemma_csi_end(s: Seq<char>, i: int)
    requires
        0 <= i,
    ensures
        csi_end(s, i) matches Some(e) ==> i <= e < s.len() && is_csi_final(s[e]),
        csi_end(s, i) is None ==> forall|k: int| i <= k < s.len() ==> !is_csi_final(#[trigger] s[k]),
    decreases s.len() - i,
{
    if 0 <= i < s.len() && !is_csi_final(s[i]) {
        lemma_csi_end(s, i + 1);
    }
}

/// `s[i..]` without its escape characters: an escape followed by `[` drops
/// everything through the next final byte (or to the end); a lone escape
/// character is dropped by itself.
pub open spec fn strip_escapes_from(s: Seq<char>, i: int) -> Seq<char>
    decreases s.len() - i,
{
    if i < 0 || i >= s.len() {
        Seq::empty()
    } else if s[i] == esc_char() {
        if i + 1 < s.len() && s[i + 1] == '[' {
            match csi_end(s, i + 2) {
                Some(e) => {
                    proof {
                        lemma_csi_end(s, i + 2);
                    }
                    strip_escapes_from(s, e + 1)
                },
                None => Seq::empty(),
            }
        } else {
            strip_escapes_from(s, i + 1)
        }
    } else {
        seq![s[i]] + strip_escapes_from(s, i + 1)
    }
}

/// `text` without terminal escape sequences.
pub fn strip_ansi_escape_codes(text: &str) -> (res: String)
    ensures
        res@ == strip_escapes_from(text@, 0),
{
    let cs = chars_of(text);
    let mut out = String::new();
    let mut i: usize = 0;
    assert(out@ + strip_escapes_from(cs@, 0) =~= strip_escapes_from(cs@, 0));
    while i < cs.len()
        invariant
            cs@ == text@,
            i <= cs@.len(),
            out@ + strip_escapes_from(cs@, i as int) == strip_escapes_from(cs@, 0),
        decreases cs@.len() - i,
    {
        let ch = cs[i];
        if ch == '\u{1b}' {
            if i + 1 < cs.len() && cs[i + 1] == '[' {
                let mut j = i + 2;
                while j < cs.len() && !('@' <= cs[j] && cs[j] <= '~')
                    invariant
                        i + 2 <= j <= cs@.len(),
                        csi_end(cs@, j as int) == csi_end(cs@, i + 2),
                    decreases cs@.len() - j,
                {
                    j += 1;
                }
                if j >= cs.len() {
                    assert(out@ + Seq::<char>::empty() =~= out@);
                    return out;
                }
                i = j + 1;
            } else {
                i += 1;
            }
        } else {
            let ghost rest = strip_escapes_from(cs@, i + 1);
            let ghost before = out@;
            push_char(&mut out, ch);
            assert(out@ + rest =~= before + (seq![ch] + rest));
            i += 1;
        }
    }
    assert(out@ + Seq::<char>::empty() =~= out@);
    out
}

/// The end of `s` without its trailing whitespace, looking from `j` down.
pub open spec fn trailing_ws_start(s: Seq<char>, j: int) -> int
    decreases j,
{
    if 0 < j <= s.len() && spec_is_whitespace(s[j - 1]) {
        trailing_ws_start(s, j - 1)
    } else {
        j
    }
}

/// `s` without leading and trailing whitespace.
pub open spec fn trim(s: Seq<char>) -> Seq<char> {
    let a = first_non_ws(s);
    if a >= s.len() {
        Seq::empty()
    } else {
        s.subrange(a, trailing_ws_start(s, s.len() as int))
    }
}

proof fn lemma_trailing_ws_start(s: Seq<char>, j: int, a: int)
    requires
        0 <= a < j <= s.len(),
        !spec_is_whitespace(s[a]),
    ensures
        a < trailing_ws_start(s, j) <= j,
    decreases j,
{
    if spec_is_whitespace(s[j - 1]) {
        lemma_trailing_ws_start(s, j - 1, a);
    }
}

/// `text` without leading and trailing whitespace.
pub fn trim_text(text: &str) -> (res: String)
    ensures
        res@ == trim(text@),
{
    let cs = chars_of(text);
    assert(cs@.subrange(0, cs@.len() as int) =~= cs@);
    trim_range(cs.as_slice(), 0, cs.len())
}

/// `chars[start..end]` without leading and trailing whitespace.
fn trim_range(chars: &[char], start: usize, end: usize) -> (res: String)
    requires
        start <= end <= chars@.len(),
    ensures
        res@ == trim(chars@.subrange(start as int, end as int)),
{
    let ghost s = chars@.subrange(start as int, end as int);
    let mut a = start;
    proof {
        lemma_ws_run_end(s, 0);
    }
    while a < end && is_whitespace(chars[a])
        invariant
            start <= a <= end <= chars@.len(),
            s == chars@.subrange(start as int, end as int),
            crate::text::ws_run_end(s, a - start) == first_non_ws(s),
        decreases end - a,
    {
        assert(s[a - start] == chars@[a as int]);
        a += 1;
    }
    if a >= end {
        return String::new();
    }
    assert(s[a - start] == chars@[a as int]);
    assert(first_non_ws(s) == a - start);
    let mut b = end;
    proof {
        lemma_trailing_ws_start(s, s.len() as int, a - start);
    }
    while b > a && is_whitespace(chars[b - 1])
        invariant
            start <= a < end,
            a < b <= end <= chars@.len(),
            s == chars@.subrange(start as int, end as int),
            trailing_ws_start(s, b - start) == trailing_ws_start(s, s.len() as int),
            !spec_is_whitespace(chars@[a as int]),
        decreases b,
    {
        assert(s[b - 1 - start] == chars@[b - 1]);
        b -= 1;
    }
    assert(s[b - 1 - start] == chars@[b - 1]);
    assert(trailing_ws_start(s, b - start) == b - start);
    let r = string_from_chars(chars, a, b);
    assert(r@ =~= s.subrange(a - start, b - start));
    r
}

/// A one-line HTML heading `<hN ...>text</hN>` (surrounding blanks allowed)
/// rewritten as markdown: `# text` for level 1, `**text**` for the others.
pub open spec fn spec_html_heading(line: Seq<char>) -> Option<Seq<char>> {
    let t = trim(line);
    let n = t.len() as int;
    if !(n >= 3 && t[0] == '<' && t[1] == 'h' && '1' <= t[2] <= '6') {
        None
    } else {
        let close = seq!['<', '/', 'h', t[2], '>'];
        match crate::markdown::find_char(t, '>', 0, false) {
            None => None,
            Some(p) => if !(n >= 5 && t.skip(n - 5) == close) || p + 1 > n - 5 {
                None
            } else {
                let content = trim(t.subrange(p + 1, n - 5));
                if t[2] == '1' {
                    Some(seq!['#', ' '] + content)
                } else {
                    Some(seq!['*', '*'] + content + seq!['*', '*'])
                }
            },
        }
    }
}

/// The markdown form of an HTML heading line; `None` for other lines.
pub fn html_heading_to_markdown(line: &str) -> (res: Option<String>)
    ensures
        match res {
            Some(s) => spec_html_heading(line@) == Some(s@),
            None => spec_html_heading(line@) is None,
        },
{
    let all = chars_of(line);
    let trimmed = trim_range(all.as_slice(), 0, all.len());
    assert(all@.subrange(0, all@.len() as int) =~= line@);
    let t = chars_of(trimmed.as_str());
    let n = t.len();
    if !(n >= 3 && t[0] == '<' && t[1] == 'h' && '1' <= t[2] && t[2] <= '6') {
        return None;
    }
    let level = t[2];
    let p = match find_gt(t.as_slice()) {
        Some(p) => p,
        None => return None,
    };
    proof {
        crate::markdown::lemma_find_char(t@, '>', 0, false);
    }
    if n < 5 {
        return None;
    }
    let ends = t[n - 5] == '<' && t[n - 4] == '/' && t[n - 3] == 'h' && t[n - 2] == level && t[n
        - 1] == '>';
    proof {
        let close = seq!['<', '/', 'h', level, '>'];
        if ends {
            assert(t@.skip(n - 5) =~= close);
        } else {
            if t@.skip(n - 5) == close {
                assert(t@.skip(n - 5)[0] == t@[n - 5]);
                assert(t@.skip(n - 5)[1] == t@[n - 4]);
                assert(t@.skip(n - 5)[2] == t@[n - 3]);
                assert(t@.skip(n - 5)[3] == t@[n - 2]);
                assert(t@.skip(n - 5)[4] == t@[n - 1]);
            }
        }
    }
    if !ends || p + 1 > n - 5 {
        return None;
    }
    let content = trim_range(t.as_slice(), p + 1, n - 5);
    let mut out = String::new();
    if level == '1' {
        push_char(&mut out, '#');
        push_char(&mut out, ' ');
        let cc = chars_of(content.as_str());
        push_chars(&mut out, cc.as_slice(), 0, cc.len());
        assert(cc@.subrange(0, cc@.len() as int) =~= cc@);
        assert(out@ =~= seq!['#', ' '] + content@);
    } else {
        push_char(&mut out, '*');
        push_char(&mut out, '*');
        let cc = chars_of(content.as_str());
        push_chars(&mut out, cc.as_slice(), 0, cc.len());
        assert(cc@.subrange(0, cc@.len() as int) =~= cc@);
        push_char(&mut out, '*');
        push_char(&mut out, '*');
        assert(out@ =~= seq!['*', '*'] + content@ + seq!['*', '*']);
    }
    Some(out)
}

/// The first position of `>` in `t`.
fn find_gt(t: &[char]) -> (res: Option<usize>)
    ensures
        match res {
            Some(p) => crate::markdown::find_char(t@, '>', 0, false) == Some(p as int),
            None => crate::markdown::find_char(t@, '>', 0, false) is None,
        },
{
    let mut j: usize = 0;
    while j < t.len()
        invariant
            crate::markdown::find_char(t@, '>', j as int, false) == crate::markdown::find_char(
                t@,
                '>',
                0,
                false,
            ),
        decreases t@.len() - j,
    {
        if t[j] == '>' {
            return Some(j);
        }
        j += 1;
    }
    None
}

/// Whether a file extension marks a markdown file (`md`, `markdown`,
/// `mdown`, `mkd`, in any ASCII case).
pub open spec fn spec_is_markdown_ext(ext: Seq<char>) -> bool {
    eq_ignore_ascii_case(ext, seq!['m', 'd']) || eq_ignore_ascii_case(
        ext,
        seq!['m', 'a', 'r', 'k', 'd', 'o', 'w', 'n'],
    ) || eq_ignore_ascii_case(ext, seq!['m', 'd', 'o', 'w', 'n']) || eq_ignore_ascii_case(
        ext,
        seq!['m', 'k', 'd'],
    )
}

/// The ASCII lower-case form of `c`.
pub open spec fn ascii_lower(c: char) -> char {
    if 'A' <= c <= 'Z' {
        ((c as u32) + 32) as char
    } else {
        c
    }
}

/// Whether `a` and `b` are equal up to ASCII case.
pub open spec fn eq_ignore_ascii_case(a: Seq<char>, b: Seq<char>) -> bool {
    a.len() == b.len() && forall|k: int| 0 <= k < a.len() ==> ascii_lower(#[trigger] a[k])
        == ascii_lower(b[k])
}

/// The ASCII lower-case form of `c`.
pub fn to_ascii_lowercase(c: char) -> (res: char)
    ensures
        res == ascii_lower(c),
{
    if 'A' <= c && c <= 'Z' {
        ((c as u8) + 32) as char
    } else {
        c
    }
}

/// Whether `a` and `b` are equal up to ASCII case.
fn equal_ignore_case(a: &[char], b: &[char]) -> (res: bool)
    ensures
        res == eq_ignore_ascii_case(a@, b@),
{
    if a.len() != b.len() {
        return false;
    }
    let mut k: usize = 0;
    while k < a.len()
        invariant
            a@.len() == b@.len(),
            k <= a@.len(),
            forall|q: int| 0 <= q < k ==> ascii_lower(#[trigger] a@[q]) == ascii_lower(b@[q]),
        decreases a@.len() - k,
    {
        if to_ascii_lowercase(a[k]) != to_ascii_lowercase(b[k]) {
            return false;
        }
        k += 1;
    }
    true
}

/// Whether `ext` is a markdown file extension.
pub fn is_markdown_extension(ext: Option<String>) -> (res: bool)
    ensures
        res == match ext {
            Some(e) => spec_is_markdown_ext(e@),
            None => false,
        },
{
    match ext {
        None => false,
        Some(e) => {
            let cs = chars_of(e.as_str());
            let md = ['m', 'd'];
            let markdown = ['m', 'a', 'r', 'k', 'd', 'o', 'w', 'n'];
            let mdown = ['m', 'd', 'o', 'w', 'n'];
            let mkd = ['m', 'k', 'd'];
            assert(md@ =~= seq!['m', 'd']);
            assert(markdown@ =~= seq!['m', 'a', 'r', 'k', 'd', 'o', 'w', 'n']);
            assert(mdown@ =~= seq!['m', 'd', 'o', 'w', 'n']);
            assert(mkd@ =~= seq!['m', 'k', 'd']);
            equal_ignore_case(cs.as_slice(), md.as_slice()) || equal_ignore_case(
                cs.as_slice(),
                markdown.as_slice(),
            ) || equal_ignore_case(cs.as_slice(), mdown.as_slice()) || equal_ignore_case(
                cs.as_slice(),
                mkd.as_slice(),
            )
        },
    }
}

/// The index of the last `.` in `s`, or -1 where there is none.
pub open spec fn last_dot(s: Seq<char>) -> int
    decreases s.len(),
{
    if s.len() == 0 {
        -1
    } else if s.last() == '.' {
        s.len() - 1
    } else {
        last_dot(s.drop_last())
    }
}

/// The extension of the file name `p`: what follows its last `.`, where
/// that `.` is not the first character; none otherwise.
pub open spec fn name_extension(p: Seq<char>) -> Option<Seq<char>> {
    let i = last_dot(p);
    if i <= 0 {
        None
    } else {
        Some(p.skip(i + 1))
    }
}

/// The index of the last `/` in `s`, or -1 where there is none.
pub open spec fn last_slash(s: Seq<char>) -> int
    decreases s.len(),
{
    if s.len() == 0 {
        -1
    } else if s.last() == '/' {
        s.len() - 1
    } else {
        last_slash(s.drop_last())
    }
}

/// The last `/` of `s` lies within it, and nothing after it is a `/`.
pub proof fn lemma_last_slash(s: Seq<char>)
    ensures
        -1 <= last_slash(s) < s.len(),
        last_slash(s) >= 0 ==> s[last_slash(s)] == '/',
        forall|k: int| last_slash(s) < k < s.len() ==> #[trigger] s[k] != '/',
    decreases s.len(),
{
    if s.len() > 0 && s.last() != '/' {
        let t = s.drop_last();
        lemma_last_slash(t);
        assert forall|k: int| last_slash(s) < k < s.len() implies #[trigger] s[k] != '/' by {
            if k < t.len() {
                assert(s[k] == t[k]);
            }
        }
    }
}

/// Whether the path `p` is read alike on every platform: its components
/// are separated by `/` alone, with no `\`, no drive mark `:`, and no
/// leading `//` (which names a network share on some platforms).
pub open spec fn slash_path(p: Seq<char>) -> bool {
    &&& forall|k: int| 0 <= k < p.len() ==> #[trigger] p[k] != '\\' && p[k] != ':'
    &&& !(p.len() >= 2 && p[0] == '/' && p[1] == '/')
}

/// The last component of the `/`-separated path `p`, empty components and
/// `.` components left aside; none where there is no such component.
pub open spec fn last_component(p: Seq<char>) -> Option<Seq<char>>
    decreases p.len(),
{
    if p.len() == 0 {
        None
    } else if p.last() == '/' {
        last_component(p.drop_last())
    } else {
        let i = last_slash(p);
        let c = p.skip(i + 1);
        if c == seq!['.'] {
            if i < 0 {
                None
            } else {
                proof {
                    lemma_last_slash(p);
                }
                last_component(p.take(i))
            }
        } else {
            Some(c)
        }
    }
}

/// The file name of the `/`-separated path `p`: its last component, none
/// where there is none or where it is `..`.
pub open spec fn file_name_of(p: Seq<char>) -> Option<Seq<char>> {
    match last_component(p) {
        Some(c) => if c == seq!['.', '.'] {
            None
        } else {
            Some(c)
        },
        None => None,
    }
}

/// The extension of the `/`-separated path `p`: that of its file name.
pub open spec fn path_extension_of(p: Seq<char>) -> Option<Seq<char>> {
    match file_name_of(p) {
        Some(n) => name_extension(n),
        None => None,
    }
}

/// Whether the `/`-separated path `p` names a markdown file by its
/// extension.
pub open spec fn markdown_path(p: Seq<char>) -> bool {
    match path_extension_of(p) {
        Some(e) => spec_is_markdown_ext(e),
        None => false,
    }
}

/// Whether `e` can be the extension of the path `p`: it holds no `.` and no
/// `/`, and stands in `p` right after a `.`.
pub open spec fn extension_in(p: Seq<char>, e: Seq<char>) -> bool {
    &&& forall|k: int| 0 <= k < e.len() ==> #[trigger] e[k] != '.' && e[k] != '/'
    &&& exists|i: int|
        0 <= i && i + 1 + e.len() <= p.len() && #[trigger] p[i] == '.' && p.subrange(i + 1, i + 1 + e.len())
            == e
}

/// The extension of the path `p`, when it has one: calls
/// `std::path::Path::extension`. As its documentation says, the extension is
/// the part of the file name after its last `.`, none where the name has no
/// `.` or only a leading one, and none where there is no file name; the file
/// name is the last component, none where that is `..`, with trailing `/` and
/// `.` components left aside. Which characters separate components, and what
/// counts as a prefix, depends on the platform, so the result is stated
/// exactly only for a path that every platform reads alike (separated by `/`
/// alone, without `\`, `:` or a leading `//`); of any other path it is
/// stated only that an extension is text that follows a `.` in it and holds
/// no `.` or `/`.
#[verifier::external_body]
pub(crate) fn path_extension(p: &str) -> (r: Option<String>)
    ensures
        slash_path(p@) ==> match r {
            Some(e) => path_extension_of(p@) == Some(e@),
            None => path_extension_of(p@) is None,
        },
        r matches Some(e) ==> extension_in(p@, e@),
{
    std::path::Path::new(p).extension().and_then(|e| e.to_str()).map(|e| e.to_owned())
}

/// Whether the file at `path` is a markdown file, judged by its extension
/// (`md`, `markdown`, `mdown` or `mkd`, in any ASCII case).
pub fn is_markdown_path(path: &str) -> (res: bool)
    ensures
        slash_path(path@) ==> res == markdown_path(path@),
        res ==> exists|e: Seq<char>| extension_in(path@, e) && spec_is_markdown_ext(e),
{
    let ext = path_extension(path);
    let ghost g = ext;
    let res = is_markdown_extension(ext);
    proof {
        if res {
            let e = g->0@;
            assert(extension_in(path@, e) && spec_is_markdown_ext(e));
        }
    }
    res
}

/// Text with its escape sequences removed holds no escape character.
pub proof fn law_strip_leaves_no_escape(s: Seq<char>, i: int)
    ensures
        forall|k: int|
            0 <= k < strip_escapes_from(s, i).len() ==> #[trigger] strip_escapes_from(s, i)[k]
                != esc_char(),
    decreases s.len() - i,
{
    if i < 0 || i >= s.len() {
    } else if s[i] == esc_char() {
        if i + 1 < s.len() && s[i + 1] == '[' {
            match csi_end(s, i + 2) {
                Some(e) => {
                    lemma_csi_end(s, i + 2);
                    law_strip_leaves_no_escape(s, e + 1);
                    assert(strip_escapes_from(s, i) == strip_escapes_from(s, e + 1));
                },
                None => {
                    assert(strip_escapes_from(s, i) =~= Seq::<char>::empty());
                },
            }
        } else {
            law_strip_leaves_no_escape(s, i + 1);
            assert(strip_escapes_from(s, i) == strip_escapes_from(s, i + 1));
        }
    } else {
        law_strip_leaves_no_escape(s, i + 1);
        let rest = strip_escapes_from(s, i + 1);
        assert(strip_escapes_from(s, i) == seq![s[i]] + rest);
        assert forall|k: int| 0 <= k < (seq![s[i]] + rest).len() implies #[trigger] (seq![s[i]]
            + rest)[k] != esc_char() by {
            if k > 0 {
                assert((seq![s[i]] + rest)[k] == rest[k - 1]);
            }
        }
    }
}

} // verus!
