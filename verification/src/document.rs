//! The text buffer: a sequence of lines, edited at character positions.
use vstd::prelude::*;

use crate::textfmt::{file_name_of, slash_path};
use crate::text::{
    chars_of, is_whitespace, push_char, push_chars, push_str, spec_is_whitespace, string_from_chars,
};

verus! {

/// A cursor position: `x` is a character column, `y` a line index.
#[derive(Clone, Copy, PartialEq, Eq, Debug, Structural)]
pub struct Position {
    pub x: usize,
    pub y: usize,
}

impl Default for Position {
    fn default() -> (res: Position)
        ensures
            res == (Position { x: 0, y: 0 }),
    {
        Position { x: 0, y: 0 }
    }
}

/// The characters of each line.
pub open spec fn lines_view(lines: Seq<String>) -> Seq<Seq<char>> {
    lines.map_values(|l: String| l@)
}

/// The smaller of `a` and `b`.
pub open spec fn min_int(a: int, b: int) -> int {
    if a < b {
        a
    } else {
        b
    }
}

/// `s` with `c` inserted before character `x`, or appended when `x` is
/// past the end.
pub open spec fn insert_at(s: Seq<char>, x: int, c: char) -> Seq<char> {
    let k = min_int(x, s.len() as int);
    s.take(k).push(c) + s.skip(k)
}

/// `s` without its character `x`; `s` itself when there is no such character.
pub open spec fn remove_at(s: Seq<char>, x: int) -> Seq<char> {
    if 0 <= x < s.len() {
        s.take(x) + s.skip(x + 1)
    } else {
        s
    }
}

/// The characters of `s` from `start` up to (not including) `end`, both
/// clipped to the length of `s`; empty when `start >= end`.
pub open spec fn slice_of(s: Seq<char>, start: int, end: int) -> Seq<char> {
    if start >= end {
        Seq::empty()
    } else {
        s.subrange(min_int(start, s.len() as int), min_int(end, s.len() as int))
    }
}

/// The lines of `s` when it is split at every `'\n'`; the empty text is one
/// empty line.
pub open spec fn split_lines(s: Seq<char>) -> Seq<Seq<char>>
    decreases s.len(),
{
    if s.len() == 0 {
        seq![Seq::<char>::empty()]
    } else {
        let p = split_lines(s.drop_last());
        if s.last() == '\n' {
            p.push(Seq::<char>::empty())
        } else {
            p.update(p.len() - 1, p.last().push(s.last()))
        }
    }
}

/// The lines joined with `'\n'` between consecutive lines.
pub open spec fn join_lines(lines: Seq<Seq<char>>) -> Seq<char>
    decreases lines.len(),
{
    if lines.len() == 0 {
        Seq::empty()
    } else if lines.len() == 1 {
        lines[0]
    } else {
        join_lines(lines.drop_last()).push('\n') + lines.last()
    }
}

/// The number of whitespace-separated words of `s`: the characters that are
/// not whitespace and do not follow a character that is not whitespace.
pub open spec fn word_count_of(s: Seq<char>) -> nat
    decreases s.len(),
{
    if s.len() == 0 {
        0
    } else {
        let n = s.len() - 1;
        word_count_of(s.drop_last()) + if !spec_is_whitespace(s[n]) && (n == 0
            || spec_is_whitespace(s[n - 1])) {
            1nat
        } else {
            0nat
        }
    }
}

/// The number of words of all the lines together.
pub open spec fn total_words(lines: Seq<Seq<char>>) -> nat
    decreases lines.len(),
{
    if lines.len() == 0 {
        0
    } else {
        total_words(lines.drop_last()) + word_count_of(lines.last())
    }
}

/// Whether `needle` occurs in `hay` starting at character `i`.
pub open spec fn matches_at(hay: Seq<char>, needle: Seq<char>, i: int) -> bool {
    0 <= i && i + needle.len() <= hay.len() && hay.subrange(i, i + needle.len()) == needle
}

/// The lines after typing `c` at `pos`: inserted into line `pos.y` at
/// column `pos.x` (appended when past its end); below the last line an
/// empty line is appended first, and the character goes into it only when
/// `pos.y` is its index.
pub open spec fn insert_char_result(t: Seq<Seq<char>>, pos: Position, c: char) -> Seq<Seq<char>> {
    if pos.y < t.len() {
        t.update(pos.y as int, insert_at(t[pos.y as int], pos.x as int, c))
    } else if pos.y == t.len() {
        t.push(seq![c])
    } else {
        t.push(Seq::<char>::empty())
    }
}

/// The lines after Enter at `pos`: line `pos.y` split at column `pos.x`
/// (clipped to the line), the rest becoming the next line; below the last
/// line an empty line is appended.
pub open spec fn insert_newline_result(t: Seq<Seq<char>>, pos: Position) -> Seq<Seq<char>> {
    if pos.y >= t.len() {
        t.push(Seq::<char>::empty())
    } else {
        let line = t[pos.y as int];
        let k = min_int(pos.x as int, line.len() as int);
        t.update(pos.y as int, line.take(k)).insert(pos.y + 1, line.skip(k))
    }
}

/// The lines and the cursor after backspace at `pos`: the character before
/// the cursor goes, or (at column 0) the line joins the previous one;
/// `None` when nothing changes (no such line, or the very start).
pub open spec fn backspace_result(t: Seq<Seq<char>>, pos: Position) -> Option<(Seq<Seq<char>>, Position)> {
    if pos.y >= t.len() {
        None
    } else if pos.x > 0 {
        Some(
            (
                t.update(pos.y as int, remove_at(t[pos.y as int], pos.x - 1)),
                Position { x: (pos.x - 1) as usize, y: pos.y },
            ),
        )
    } else if pos.y == 0 {
        None
    } else {
        Some(
            (
                t.update(pos.y - 1, t[pos.y - 1] + t[pos.y as int]).remove(pos.y as int),
                Position { x: t[pos.y - 1].len() as usize, y: (pos.y - 1) as usize },
            ),
        )
    }
}

/// The lines after delete at `pos`: the character under the cursor goes,
/// or (at or past the end of the line) the next line joins this one;
/// `None` when nothing changes.
pub open spec fn delete_forward_result(t: Seq<Seq<char>>, pos: Position) -> Option<Seq<Seq<char>>> {
    if pos.y >= t.len() {
        None
    } else if pos.x < t[pos.y as int].len() {
        Some(t.update(pos.y as int, remove_at(t[pos.y as int], pos.x as int)))
    } else if pos.y + 1 >= t.len() {
        None
    } else {
        Some(t.update(pos.y as int, t[pos.y as int] + t[pos.y + 1]).remove(pos.y + 1))
    }
}

/// The text buffer of the editor.
pub struct Document {
    pub lines: Vec<String>,
    pub file_path: Option<String>,
    pub modified: bool,
}

impl Document {
    /// The characters of each line.
    pub open spec fn text(&self) -> Seq<Seq<char>> {
        lines_view(self.lines@)
    }

    /// A buffer with one empty line, not modified.
    pub fn new_empty(file_path: Option<String>) -> (res: Document)
        ensures
            res.text() == seq![Seq::<char>::empty()],
            res.file_path == file_path,
            !res.modified,
    {
        let mut lines: Vec<String> = Vec::new();
        lines.push(String::new());
        let res = Document { lines, file_path, modified: false };
        assert(res.text() =~= seq![Seq::<char>::empty()]);
        res
    }

    /// A buffer holding `text` split at every `'\n'`, read from `path`.
    pub fn from_text(text: &str, path: String) -> (res: Document)
        ensures
            res.text() == split_lines(text@),
            res.text().len() >= 1,
            res.file_path == Some(path),
            !res.modified,
    {
        let cs = chars_of(text);
        // `lines` holds the finished lines and `cur` the line being read.
        let mut lines: Vec<String> = Vec::new();
        let mut cur = String::new();
        let mut i: usize = 0;
        assert(cs@.take(0) =~= Seq::<char>::empty());
        assert(lines_view(lines@).push(cur@) =~= seq![Seq::<char>::empty()]);
        while i < cs.len()
            invariant
                cs@ == text@,
                i <= cs@.len(),
                lines_view(lines@).push(cur@) == split_lines(cs@.take(i as int)),
            decreases cs@.len() - i,
        {
            let c = cs[i];
            proof {
                assert(cs@.take(i + 1).drop_last() =~= cs@.take(i as int));
                assert(cs@.take(i + 1).last() == c);
            }
            if c == '\n' {
                let done = cur;
                lines.push(done);
                cur = String::new();
                assert(lines_view(lines@).push(cur@) =~= split_lines(cs@.take(i as int)).push(
                    Seq::<char>::empty(),
                ));
            } else {
                let ghost before = lines_view(lines@).push(cur@);
                push_char(&mut cur, c);
                assert(lines_view(lines@).push(cur@) =~= before.update(
                    before.len() - 1,
                    before.last().push(c),
                ));
            }
            i += 1;
        }
        lines.push(cur);
        assert(cs@.take(cs@.len() as int) =~= cs@);
        let res = Document { lines, file_path: Some(path), modified: false };
        proof {
            lemma_split_lines_nonempty(text@);
        }
        res
    }

    /// The number of lines.
    pub fn line_count(&self) -> (res: usize)
        ensures
            res == self.text().len(),
    {
        self.lines.len()
    }

    /// The number of whitespace-separated words in the buffer.
    pub fn word_count(&self) -> (res: usize)
        requires
            total_words(self.text()) <= usize::MAX,
        ensures
            res == total_words(self.text()),
    {
        let mut total: usize = 0;
        let mut i: usize = 0;
        while i < self.lines.len()
            invariant
                i <= self.lines@.len(),
                total == total_words(self.text().take(i as int)),
                total_words(self.text()) <= usize::MAX,
            decreases self.lines@.len() - i,
        {
            proof {
                assert(self.text().take(i + 1).drop_last() =~= self.text().take(i as int));
                lemma_total_words_prefix(self.text(), i + 1);
            }
            let n = count_words(self.lines[i].as_str());
            total = total + n;
            i += 1;
        }
        assert(self.text().take(i as int) =~= self.text());
        total
    }

    /// The number of words in the buffer, or `None` when it does not fit in
    /// a `usize`.
    pub fn word_count_checked(&self) -> (res: Option<usize>)
        ensures
            match res {
                Some(n) => n == total_words(self.text()),
                None => total_words(self.text()) > usize::MAX,
            },
    {
        let mut total: usize = 0;
        let mut i: usize = 0;
        while i < self.lines.len()
            invariant
                i <= self.lines@.len(),
                total == total_words(self.text().take(i as int)),
            decreases self.lines@.len() - i,
        {
            proof {
                assert(self.text().take(i + 1).drop_last() =~= self.text().take(i as int));
                lemma_total_words_prefix(self.text(), i + 1);
            }
            let n = count_words(self.lines[i].as_str());
            match total.checked_add(n) {
                Some(t) => {
                    total = t;
                },
                None => {
                    proof {
                        lemma_total_words_prefix(self.text(), i + 1);
                    }
                    return None;
                },
            }
            i += 1;
        }
        assert(self.text().take(i as int) =~= self.text());
        Some(total)
    }

    /// The line at `index`, if there is one.
    pub fn line(&self, index: usize) -> (res: Option<&String>)
        ensures
            index < self.text().len() ==> res == Some(&self.lines@[index as int]),
            index >= self.text().len() ==> res is None,
    {
        if index < self.lines.len() {
            Some(&self.lines[index])
        } else {
            None
        }
    }

    /// The number of characters of line `index`; 0 when there is no such line.
    pub fn line_char_len(&self, index: usize) -> (res: usize)
        ensures
            index < self.text().len() ==> res == self.text()[index as int].len(),
            index >= self.text().len() ==> res == 0,
    {
        if index < self.lines.len() {
            chars_of(self.lines[index].as_str()).len()
        } else {
            0
        }
    }

    /// Inserts `ch` at `pos`. A position below the last line first appends an
    /// empty line; the character goes into it only when `pos.y` is the index
    /// of that new line.
    pub fn insert_char(&mut self, pos: Position, ch: char)
        ensures
            final(self).file_path == old(self).file_path,
            final(self).text() == insert_char_result(old(self).text(), pos, ch),
            final(self).modified == (old(self).modified || pos.y <= old(self).text().len()),
    {
        if pos.y >= self.lines.len() {
            self.lines.push(String::new());
        }
        if pos.y < self.lines.len() {
            let new_line = insert_char_in(self.lines[pos.y].as_str(), pos.x, ch);
            self.lines.set(pos.y, new_line);
            self.modified = true;
        }
        proof {
            if pos.y == old(self).text().len() {
                assert(insert_at(Seq::<char>::empty(), pos.x as int, ch) =~= seq![ch]);
            }
        }
        assert(pos.y < old(self).text().len() ==> final(self).text() =~= old(self).text().update(
            pos.y as int,
            insert_at(old(self).text()[pos.y as int], pos.x as int, ch),
        ));
        assert(pos.y == old(self).text().len() ==> final(self).text() =~= old(self).text().push(
            seq![ch],
        ));
        assert(pos.y > old(self).text().len() ==> final(self).text() =~= old(self).text().push(
            Seq::<char>::empty(),
        ));
    }

    /// Splits line `pos.y` at column `pos.x` (clipped to the line); the part
    /// after the column becomes the next line. Below the last line, appends an
    /// empty line.
    pub fn insert_newline(&mut self, pos: Position)
        ensures
            final(self).file_path == old(self).file_path,
            final(self).modified,
            final(self).text() == insert_newline_result(old(self).text(), pos),
    {
        if pos.y >= self.lines.len() {
            self.lines.push(String::new());
            self.modified = true;
            assert(final(self).text() =~= old(self).text().push(Seq::<char>::empty()));
            return ;
        }
        let cs = chars_of(self.lines[pos.y].as_str());
        let k = if pos.x < cs.len() {
            pos.x
        } else {
            cs.len()
        };
        let head = string_from_chars(&cs, 0, k);
        let tail = string_from_chars(&cs, k, cs.len());
        self.lines.set(pos.y, head);
        self.lines.insert(pos.y + 1, tail);
        self.modified = true;
        proof {
            let line = old(self).text()[pos.y as int];
            assert(cs@.subrange(0, k as int) =~= line.take(k as int));
            assert(cs@.subrange(k as int, cs@.len() as int) =~= line.skip(k as int));
            assert(final(self).text() =~= old(self).text().update(
                pos.y as int,
                line.take(k as int),
            ).insert(pos.y + 1, line.skip(k as int)));
        }
    }

    /// Deletes the character before `pos`, or joins line `pos.y` to the
    /// previous line at column 0; returns the new cursor position.
    pub fn backspace(&mut self, pos: Position) -> (res: Option<Position>)
        ensures
            match backspace_result(old(self).text(), pos) {
                None => res is None && *final(self) == *old(self),
                Some((t, p)) => res == Some(p) && final(self).text() == t && final(self).modified
                    && final(self).file_path == old(self).file_path,
            },
    {
        if pos.y >= self.lines.len() {
            return None;
        }
        if pos.x > 0 {
            let mut line = self.lines[pos.y].clone();
            remove_char_at(&mut line, pos.x - 1);
            self.lines.set(pos.y, line);
            self.modified = true;
            assert(final(self).text() =~= old(self).text().update(
                pos.y as int,
                remove_at(old(self).text()[pos.y as int], pos.x - 1),
            ));
            return Some(Position { x: pos.x - 1, y: pos.y });
        }
        if pos.y == 0 {
            return None;
        }
        let prev_len = self.line_char_len(pos.y - 1);
        let current_line = self.lines.remove(pos.y);
        let mut prev_line = self.lines[pos.y - 1].clone();
        push_str(&mut prev_line, current_line.as_str());
        self.lines.set(pos.y - 1, prev_line);
        self.modified = true;
        proof {
            let t = old(self).text();
            assert(final(self).text() =~= t.update(pos.y - 1, t[pos.y - 1] + t[pos.y as int]).remove(
                pos.y as int,
            ));
        }
        Some(Position { x: prev_len, y: pos.y - 1 })
    }

    /// Deletes the character at `pos`, or joins the next line to line `pos.y`
    /// when `pos` is at (or past) the end of its line.
    pub fn delete_forward(&mut self, pos: Position)
        ensures
            match delete_forward_result(old(self).text(), pos) {
                None => *final(self) == *old(self),
                Some(t) => final(self).text() == t && final(self).modified && final(self).file_path
                    == old(self).file_path,
            },
    {
        if pos.y >= self.lines.len() {
            return ;
        }
        let line_len = self.line_char_len(pos.y);
        if pos.x < line_len {
            let mut line = self.lines[pos.y].clone();
            remove_char_at(&mut line, pos.x);
            self.lines.set(pos.y, line);
            self.modified = true;
            assert(final(self).text() =~= old(self).text().update(
                pos.y as int,
                remove_at(old(self).text()[pos.y as int], pos.x as int),
            ));
            return ;
        }
        if pos.y + 1 >= self.lines.len() {
            return ;
        }
        let next_line = self.lines.remove(pos.y + 1);
        let mut line = self.lines[pos.y].clone();
        push_str(&mut line, next_line.as_str());
        self.lines.set(pos.y, line);
        self.modified = true;
        proof {
            let t = old(self).text();
            assert(final(self).text() =~= t.update(pos.y as int, t[pos.y as int] + t[pos.y + 1]).remove(
                pos.y + 1,
            ));
        }
    }

    /// Where a plain save writes the buffer (`text_for_save`): its own
    /// path, or `redit.md` when it has none. The caller writes the file and
    /// records it with `mark_saved`.
    pub fn save(&self) -> (res: String)
        ensures
            self.file_path is Some ==> res@ == self.file_path->0@,
            self.file_path is None ==> res@ == "redit.md"@,
    {
        match &self.file_path {
            Some(p) => p.clone(),
            None => "redit.md".to_owned(),
        }
    }

    /// The text a save writes: the lines joined with `'\n'`, or a single
    /// `'\n'` when that is empty.
    pub fn text_for_save(&self) -> (res: String)
        ensures
            join_lines(self.text()).len() > 0 ==> res@ == join_lines(self.text()),
            join_lines(self.text()).len() == 0 ==> res@ == seq!['\n'],
    {
        let mut out = String::new();
        let mut i: usize = 0;
        assert(self.text().take(0) =~= Seq::<Seq<char>>::empty());
        while i < self.lines.len()
            invariant
                i <= self.lines@.len(),
                out@ == join_lines(self.text().take(i as int)),
            decreases self.lines@.len() - i,
        {
            proof {
                assert(self.text().take(i + 1).drop_last() =~= self.text().take(i as int));
                assert(self.text().take(i + 1).last() == self.text()[i as int]);
            }
            if i > 0 {
                push_char(&mut out, '\n');
            }
            let ghost before = out@;
            push_str(&mut out, self.lines[i].as_str());
            proof {
                if i == 0 {
                    assert(self.text().take(1) =~= seq![self.text()[0]]);
                    assert(out@ =~= join_lines(self.text().take(1)));
                }
            }
            i += 1;
        }
        assert(self.text().take(i as int) =~= self.text());
        if out.as_str().is_empty() {
            push_char(&mut out, '\n');
            assert(out@ =~= seq!['\n']);
        }
        out
    }

    /// Records that the buffer was written to `path`.
    pub fn mark_saved(&mut self, path: String)
        ensures
            final(self).text() == old(self).text(),
            final(self).file_path == Some(path),
            !final(self).modified,
    {
        self.file_path = Some(path);
        self.modified = false;
    }

    /// The file name of the buffer's path, or `[No Name]`.
    pub fn file_name_or_default(&self) -> (res: String)
        ensures
            self.file_path is None ==> res@ == "[No Name]"@,
            self.file_path matches Some(p) ==> (slash_path(p@) ==> res@ == shown_file_name(p@)),
    {
        let name = match &self.file_path {
            Some(p) => path_file_name(p.as_str()),
            None => None,
        };
        name_or_default(name)
    }
}

/// The file name of the path `p`: calls `std::path::Path::file_name`. As
/// its documentation says, that is the last component of the path, trailing
/// separators and `.` components left aside, and none where the path ends
/// in `..` or has no component but a root or `.`. Which characters separate
/// components, and what counts as a prefix, depends on the platform, so the
/// result is stated only for a path that every platform reads alike
/// (separated by `/` alone, without `\`, `:` or a leading `//`); of any
/// other path nothing is stated.
#[verifier::external_body]
pub(crate) fn path_file_name(p: &str) -> (r: Option<String>)
    ensures
        slash_path(p@) ==> match r {
            Some(n) => file_name_of(p@) == Some(n@),
            None => file_name_of(p@) is None,
        },
{
    std::path::Path::new(p).file_name().and_then(|n| n.to_str()).map(|n| n.to_owned())
}

/// The name shown for a buffer whose path is `p`: its file name, or
/// `[No Name]` where it has none.
pub open spec fn shown_file_name(p: Seq<char>) -> Seq<char> {
    match file_name_of(p) {
        Some(n) => n,
        None => "[No Name]"@,
    }
}

/// The given file name, or `[No Name]` when there is none.
pub fn name_or_default(name: Option<String>) -> (res: String)
    ensures
        name is Some ==> res@ == name->0@,
        name is None ==> res@ == "[No Name]"@,
{
    match name {
        Some(n) => n,
        None => "[No Name]".to_owned(),
    }
}

/// The number of whitespace-separated words of `line`.
pub fn count_words(line: &str) -> (res: usize)
    ensures
        res == word_count_of(line@),
{
    let cs = chars_of(line);
    let mut n: usize = 0;
    let mut i: usize = 0;
    assert(cs@.take(0) =~= Seq::<char>::empty());
    while i < cs.len()
        invariant
            cs@ == line@,
            i <= cs@.len(),
            n == word_count_of(cs@.take(i as int)),
            n <= i,
        decreases cs@.len() - i,
    {
        proof {
            assert(cs@.take(i + 1).drop_last() =~= cs@.take(i as int));
        }
        let starts = !is_whitespace(cs[i]) && (i == 0 || is_whitespace(cs[i - 1]));
        if starts {
            n += 1;
        }
        i += 1;
    }
    assert(cs@.take(i as int) =~= cs@);
    n
}

/// The first lines of a buffer hold at most as many words as all of it.
pub proof fn lemma_total_words_prefix(t: Seq<Seq<char>>, i: int)
    requires
        0 <= i <= t.len(),
    ensures
        total_words(t.take(i)) <= total_words(t),
    decreases t.len() - i,
{
    if i < t.len() {
        lemma_total_words_prefix(t, i + 1);
        assert(t.take(i + 1).drop_last() =~= t.take(i));
    } else {
        assert(t.take(i) =~= t);
    }
}

/// Splitting a text into lines gives at least one line.
pub proof fn lemma_split_lines_nonempty(s: Seq<char>)
    ensures
        split_lines(s).len() >= 1,
    decreases s.len(),
{
    if s.len() > 0 {
        lemma_split_lines_nonempty(s.drop_last());
    }
}

/// `line` with `ch` inserted before character `char_idx` (appended when the
/// index is past the end).
pub fn insert_char_in(line: &str, char_idx: usize, ch: char) -> (res: String)
    ensures
        res@ == insert_at(line@, char_idx as int, ch),
{
    let cs = chars_of(line);
    let k = if char_idx < cs.len() {
        char_idx
    } else {
        cs.len()
    };
    let mut s = string_from_chars(&cs, 0, k);
    push_char(&mut s, ch);
    push_chars(&mut s, &cs, k, cs.len());
    assert(s@ =~= insert_at(line@, char_idx as int, ch));
    s
}

/// Removes character `char_idx` of `line` and returns it; `None` (and no
/// change) when the line has no such character.
pub fn remove_char_at(line: &mut String, char_idx: usize) -> (res: Option<char>)
    ensures
        final(line)@ == remove_at(old(line)@, char_idx as int),
        char_idx < old(line)@.len() ==> res == Some(old(line)@[char_idx as int]),
        char_idx >= old(line)@.len() ==> res is None,
{
    let cs = chars_of(line.as_str());
    if char_idx >= cs.len() {
        return None;
    }
    let removed = cs[char_idx];
    let mut s = string_from_chars(&cs, 0, char_idx);
    push_chars(&mut s, &cs, char_idx + 1, cs.len());
    assert(s@ =~= remove_at(old(line)@, char_idx as int));
    *line = s;
    Some(removed)
}

/// The characters of `line` from `start` up to `end` (clipped to the line);
/// empty when `start >= end`.
pub fn slice_chars(line: &str, start: usize, end: usize) -> (res: String)
    ensures
        res@ == slice_of(line@, start as int, end as int),
{
    if start >= end {
        return String::new();
    }
    let cs = chars_of(line);
    let s = if start < cs.len() {
        start
    } else {
        cs.len()
    };
    let e = if end < cs.len() {
        end
    } else {
        cs.len()
    };
    string_from_chars(&cs, s, e)
}

/// The first character index at or after `start_char` at which `query`
/// occurs in `line`; `None` for an empty query or when there is none.
pub fn find_substring_at_char(line: &str, query: &str, start_char: usize) -> (res: Option<usize>)
    ensures
        query@.len() == 0 ==> res is None,
        query@.len() > 0 ==> match res {
            Some(i) => start_char <= i && matches_at(line@, query@, i as int) && forall|j: int|
                start_char <= j < i ==> !matches_at(line@, query@, j),
            None => forall|j: int| start_char <= j ==> !matches_at(line@, query@, j),
        },
{
    let haystack = chars_of(line);
    let needle = chars_of(query);
    if needle.len() == 0 {
        return None;
    }
    if needle.len() > haystack.len() || start_char >= haystack.len() {
        return None;
    }
    let max_start = haystack.len() - needle.len();
    let mut idx = start_char;
    while idx <= max_start
        invariant
            haystack@ == line@,
            needle@ == query@,
            needle@.len() > 0,
            max_start + needle@.len() == haystack@.len(),
            haystack@.len() <= usize::MAX,
            start_char <= idx,
            forall|j: int| start_char <= j < idx ==> !matches_at(line@, query@, j),
        decreases max_start + 1 - idx,
    {
        if matches_here(&haystack, &needle, idx) {
            return Some(idx);
        }
        idx += 1;
    }
    None
}

/// Whether `needle` occurs in `hay` starting at `at`.
pub fn matches_here(hay: &Vec<char>, needle: &Vec<char>, at: usize) -> (res: bool)
    requires
        at + needle@.len() <= hay@.len(),
    ensures
        res == matches_at(hay@, needle@, at as int),
{
    let mut k: usize = 0;
    let hay_len = hay.len();
    while k < needle.len()
        invariant
            at + needle@.len() <= hay@.len(),
            hay_len == hay@.len(),
            k <= needle@.len(),
            forall|m: int| 0 <= m < k ==> hay@[at + m] == needle@[m],
        decreases needle@.len() - k,
    {
        if hay[at + k] != needle[k] {
            assert(hay@.subrange(at as int, at + needle@.len())[k as int] != needle@[k as int]);
            return false;
        }
        k += 1;
    }
    assert(hay@.subrange(at as int, at + needle@.len()) =~= needle@);
    true
}

/// Splitting a text into lines and joining the lines again gives back the
/// text: saving a buffer read from a file writes the file's text again
/// (when it is not empty).
pub proof fn law_join_split(s: Seq<char>)
    ensures
        join_lines(split_lines(s)) == s,
    decreases s.len(),
{
    if s.len() > 0 {
        let p = split_lines(s.drop_last());
        law_join_split(s.drop_last());
        lemma_split_lines_nonempty(s.drop_last());
        if s.last() == '\n' {
            assert(p.push(Seq::<char>::empty()).drop_last() =~= p);
            assert(join_lines(p).push('\n') + Seq::<char>::empty() =~= s);
        } else {
            let q = p.update(p.len() - 1, p.last().push(s.last()));
            if p.len() == 1 {
                assert(q[0] =~= s);
            } else {
                assert(q.drop_last() =~= p.drop_last());
                assert(join_lines(p.drop_last()).push('\n') + p.last().push(s.last()) =~= (
                join_lines(p.drop_last()).push('\n') + p.last()).push(s.last()));
                assert(s =~= s.drop_last().push(s.last()));
            }
        }
    }
}

/// Whether no line holds a `'\n'`.
pub open spec fn no_newlines(lines: Seq<Seq<char>>) -> bool {
    forall|i: int, k: int| 0 <= i < lines.len() && 0 <= k < lines[i].len() ==> #[trigger] lines[i][k]
        != '\n'
}

/// Appending text without `'\n'` lengthens the last line only.
pub proof fn lemma_split_append(x: Seq<char>, l: Seq<char>)
    requires
        forall|k: int| 0 <= k < l.len() ==> l[k] != '\n',
    ensures
        split_lines(x + l) == split_lines(x).update(
            split_lines(x).len() - 1,
            split_lines(x).last() + l,
        ),
    decreases l.len(),
{
    lemma_split_lines_nonempty(x);
    if l.len() == 0 {
        assert(x + l =~= x);
        assert(split_lines(x).last() + l =~= split_lines(x).last());
        assert(split_lines(x).update(split_lines(x).len() - 1, split_lines(x).last())
            =~= split_lines(x));
    } else {
        let l2 = l.drop_last();
        lemma_split_append(x, l2);
        assert((x + l).drop_last() =~= x + l2);
        assert((x + l).last() == l.last());
        lemma_split_lines_nonempty(x + l2);
        assert(l[l.len() - 1] != '\n');
        let q = split_lines(x + l2);
        assert(q.len() == split_lines(x).len());
        assert(q.last() == split_lines(x).last() + l2);
        assert((split_lines(x).last() + l2).push(l.last()) =~= split_lines(x).last() + l);
        assert(split_lines(x + l) =~= split_lines(x).update(
            split_lines(x).len() - 1,
            split_lines(x).last() + l,
        ));
    }
}

/// Joining lines that hold no `'\n'` and splitting the result gives back
/// the lines: reading a file that a save wrote gives back the buffer.
pub proof fn law_split_join(lines: Seq<Seq<char>>)
    requires
        lines.len() >= 1,
        no_newlines(lines),
    ensures
        split_lines(join_lines(lines)) == lines,
    decreases lines.len(),
{
    if lines.len() == 1 {
        lemma_split_append(Seq::<char>::empty(), lines[0]);
        assert(Seq::<char>::empty() + lines[0] =~= lines[0]);
        assert(split_lines(Seq::<char>::empty()).update(0, Seq::<char>::empty() + lines[0])
            =~= lines);
    } else {
        let p = lines.drop_last();
        assert forall|i: int, k: int| 0 <= i < p.len() && 0 <= k < p[i].len() implies #[trigger] p[i][k]
            != '\n' by {
            assert(p[i] == lines[i]);
        }
        law_split_join(p);
        let x = join_lines(p).push('\n');
        assert(x.drop_last() =~= join_lines(p));
        assert(split_lines(x) == p.push(Seq::<char>::empty()));
        let l = lines.last();
        assert forall|k: int| 0 <= k < l.len() implies l[k] != '\n' by {
            assert(l[k] == lines[lines.len() - 1][k]);
        }
        lemma_split_append(x, l);
        assert(Seq::<char>::empty() + l =~= l);
        assert(p.push(Seq::<char>::empty()).update(p.len() as int, Seq::<char>::empty() + l)
            =~= lines);
    }
}

/// Backspace right after typing a character on a line removes it again and
/// puts the cursor back where the character went.
pub proof fn law_backspace_undoes_insert(t: Seq<Seq<char>>, pos: Position, c: char)
    requires
        pos.y < t.len(),
        pos.x < usize::MAX,
    ensures
        ({
            let k = min_int(pos.x as int, t[pos.y as int].len() as int);
            backspace_result(insert_char_result(t, pos, c), Position { x: (k + 1) as usize, y: pos.y })
                == Some((t, Position { x: k as usize, y: pos.y }))
        }),
{
    let line = t[pos.y as int];
    let k = min_int(pos.x as int, line.len() as int);
    let l1 = insert_at(line, pos.x as int, c);
    assert(remove_at(l1, k) =~= line);
    let t1 = t.update(pos.y as int, l1);
    assert(t1.update(pos.y as int, remove_at(t1[pos.y as int], k)) =~= t);
}

/// Enter on a line followed by backspace at the start of the new line, or
/// by delete at the end of the first part, joins the line again.
pub proof fn law_join_undoes_newline(t: Seq<Seq<char>>, pos: Position)
    requires
        pos.y < t.len(),
        pos.y < usize::MAX,
    ensures
        ({
            let k = min_int(pos.x as int, t[pos.y as int].len() as int);
            let t1 = insert_newline_result(t, pos);
            &&& backspace_result(t1, Position { x: 0, y: (pos.y + 1) as usize }) == Some(
                (t, Position { x: k as usize, y: pos.y }),
            )
            &&& delete_forward_result(t1, Position { x: k as usize, y: pos.y }) == Some(t)
        }),
{
    let line = t[pos.y as int];
    let k = min_int(pos.x as int, line.len() as int);
    let t1 = t.update(pos.y as int, line.take(k)).insert(pos.y + 1, line.skip(k));
    assert(t1[pos.y as int] + t1[pos.y + 1] =~= line);
    assert(t1.update(pos.y as int, t1[pos.y as int] + t1[pos.y + 1]).remove(pos.y + 1) =~= t);
}

} // verus!
