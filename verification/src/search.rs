//! Finding and replacing text in the buffer: the first occurrence at or
//! after a position, and the replacement of every occurrence, counted.
use vstd::prelude::*;

use crate::document::{find_substring_at_char, lines_view, matches_at, Position};
use crate::text::{chars_of, push_char, push_chars};

verus! {

/// The first column at or after `start` where `needle` occurs in `hay`;
/// `None` for an empty needle or when it does not occur there.
pub open spec fn find_in_line(hay: Seq<char>, needle: Seq<char>, start: int) -> Option<int>
    decreases hay.len() - start,
{
    if needle.len() == 0 || start < 0 || start + needle.len() > hay.len() {
        None
    } else if matches_at(hay, needle, start) {
        Some(start)
    } else {
        find_in_line(hay, needle, start + 1)
    }
}

/// The first occurrence of `needle` in `lines` at or after column `col` of
/// line `line`, looking at the lines below from their start.
pub open spec fn find_in_lines(lines: Seq<Seq<char>>, needle: Seq<char>, line: int, col: int) -> Option<
    Position,
>
    decreases lines.len() - line,
{
    if line < 0 || line >= lines.len() {
        None
    } else {
        match find_in_line(lines[line], needle, col) {
            Some(c) => Some(Position { x: c as usize, y: line as usize }),
            None => find_in_lines(lines, needle, line + 1, 0),
        }
    }
}

/// `hay` with each occurrence of `needle`, taken left to right without
/// overlap, replaced by `with`.
pub open spec fn replace_all(hay: Seq<char>, needle: Seq<char>, with: Seq<char>) -> Seq<char>
    decreases hay.len(),
{
    if needle.len() == 0 || hay.len() < needle.len() {
        hay
    } else if hay.take(needle.len() as int) == needle {
        with + replace_all(hay.skip(needle.len() as int), needle, with)
    } else {
        seq![hay[0]] + replace_all(hay.skip(1), needle, with)
    }
}

/// The number of occurrences of `needle` in `hay`, taken left to right
/// without overlap.
pub open spec fn count_matches(hay: Seq<char>, needle: Seq<char>) -> nat
    decreases hay.len(),
{
    if needle.len() == 0 || hay.len() < needle.len() {
        0
    } else if hay.take(needle.len() as int) == needle {
        1 + count_matches(hay.skip(needle.len() as int), needle)
    } else {
        count_matches(hay.skip(1), needle)
    }
}

/// The occurrences of `needle` in all of `lines`.
pub open spec fn count_in_lines(lines: Seq<Seq<char>>, needle: Seq<char>) -> nat
    decreases lines.len(),
{
    if lines.len() == 0 {
        0
    } else {
        count_in_lines(lines.drop_last(), needle) + count_matches(lines.last(), needle)
    }
}

/// Every line of `lines` with the occurrences of `needle` replaced.
pub open spec fn replace_in_lines(lines: Seq<Seq<char>>, needle: Seq<char>, with: Seq<char>) -> Seq<
    Seq<char>,
> {
    Seq::new(lines.len(), |i: int| replace_all(lines[i], needle, with))
}

proof fn lemma_find_in_line_at(hay: Seq<char>, needle: Seq<char>, start: int, i: int)
    requires
        0 <= start <= i,
        needle.len() > 0,
        matches_at(hay, needle, i),
        forall|j: int| start <= j < i ==> !matches_at(hay, needle, j),
    ensures
        find_in_line(hay, needle, start) == Some(i),
    decreases i - start,
{
    if start < i {
        lemma_find_in_line_at(hay, needle, start + 1, i);
    }
}

proof fn lemma_find_in_line_none(hay: Seq<char>, needle: Seq<char>, start: int)
    requires
        0 <= start,
        forall|j: int| start <= j ==> !matches_at(hay, needle, j),
    ensures
        find_in_line(hay, needle, start) is None,
    decreases hay.len() - start,
{
    if needle.len() > 0 && start + needle.len() <= hay.len() {
        lemma_find_in_line_none(hay, needle, start + 1);
    }
}

/// The first column at or after `start` where `needle` occurs in `line`.
pub fn find_in_line_from(line: &str, needle: &str, start: usize) -> (res: Option<usize>)
    ensures
        match res {
            Some(c) => find_in_line(line@, needle@, start as int) == Some(c as int),
            None => find_in_line(line@, needle@, start as int) is None,
        },
{
    let r = find_substring_at_char(line, needle, start);
    proof {
        if needle@.len() == 0 {
        } else {
            match r {
                Some(i) => lemma_find_in_line_at(line@, needle@, start as int, i as int),
                None => lemma_find_in_line_none(line@, needle@, start as int),
            }
        }
    }
    r
}

/// The first occurrence of `needle` at or after column `col` of line
/// `line`, looking at the lines below from their start.
pub fn find_in_lines_from(lines: &Vec<String>, needle: &str, line: usize, col: usize) -> (res:
    Option<Position>)
    ensures
        res == find_in_lines(lines_view(lines@), needle@, line as int, col as int),
{
    if needle.is_empty() {
        proof {
            assert(needle@.len() == 0);
            lemma_find_in_lines_empty(lines_view(lines@), needle@, line as int, col as int);
        }
        return None;
    }
    let mut idx = line;
    while idx < lines.len()
        invariant
            line <= idx,
            find_in_lines(lines_view(lines@), needle@, line as int, col as int) == find_in_lines(
                lines_view(lines@),
                needle@,
                idx as int,
                if idx == line {
                    col as int
                } else {
                    0
                },
            ),
        decreases lines@.len() - idx,
    {
        let start = if idx == line {
            col
        } else {
            0
        };
        match find_in_line_from(lines[idx].as_str(), needle, start) {
            Some(c) => {
                return Some(Position { x: c, y: idx });
            },
            None => {},
        }
        idx += 1;
    }
    None
}

proof fn lemma_find_in_lines_empty(lines: Seq<Seq<char>>, needle: Seq<char>, line: int, col: int)
    requires
        needle.len() == 0,
    ensures
        find_in_lines(lines, needle, line, col) is None,
    decreases lines.len() - line,
{
    if 0 <= line < lines.len() {
        lemma_find_in_lines_empty(lines, needle, line + 1, 0);
    }
}

proof fn lemma_match_step(s: Seq<char>, q: Seq<char>, i: int)
    requires
        0 <= i,
        i + q.len() <= s.len(),
    ensures
        s.skip(i).take(q.len() as int) == q <==> matches_at(s, q, i),
        s.skip(i).skip(q.len() as int) == s.skip(i + q.len()),
        i < s.len() ==> s.skip(i).skip(1) == s.skip(i + 1),
        i < s.len() ==> s.skip(i)[0] == s[i],
{
    assert(s.skip(i).take(q.len() as int) =~= s.subrange(i, i + q.len()));
    assert(s.skip(i).skip(q.len() as int) =~= s.skip(i + q.len()));
    if i < s.len() {
        assert(s.skip(i).skip(1) =~= s.skip(i + 1));
    }
}

/// `line` with each occurrence of `needle` (left to right, without
/// overlap) replaced by `with`, and the number of occurrences.
pub fn replace_in_line(line: &str, needle: &str, with: &str) -> (res: (String, usize))
    ensures
        res.0@ == replace_all(line@, needle@, with@),
        res.1 as nat == count_matches(line@, needle@),
{
    let hay = chars_of(line);
    let q = chars_of(needle);
    let w = chars_of(with);
    let mut out = String::new();
    let mut count: usize = 0;
    if q.len() == 0 {
        push_chars(&mut out, &hay, 0, hay.len());
        assert(hay@.subrange(0, hay@.len() as int) =~= line@);
        assert(out@ =~= line@);
        return (out, 0);
    }
    let mut i: usize = 0;
    assert(hay@.skip(0) =~= hay@);
    while i < hay.len()
        invariant
            hay@ == line@,
            q@ == needle@,
            w@ == with@,
            q@.len() > 0,
            i <= hay@.len(),
            out@ + replace_all(hay@.skip(i as int), q@, w@) == replace_all(hay@, q@, w@),
            count + count_matches(hay@.skip(i as int), q@) == count_matches(hay@, q@),
            count <= i,
        decreases hay@.len() - i,
    {
        let ghost rest = hay@.skip(i as int);
        if hay.len() - i >= q.len() && crate::document::matches_here(&hay, &q, i) {
            proof {
                lemma_match_step(hay@, q@, i as int);
            }
            let ghost before = out@;
            push_chars(&mut out, &w, 0, w.len());
            assert(w@.subrange(0, w@.len() as int) =~= w@);
            assert(out@ == before + w@);
            assert(before + (w@ + replace_all(hay@.skip(i + q@.len()), q@, w@)) =~= out@
                + replace_all(hay@.skip(i + q@.len()), q@, w@));
            count = count + 1;
            i = i + q.len();
        } else {
            proof {
                if hay@.len() - i >= q@.len() {
                    lemma_match_step(hay@, q@, i as int);
                } else {
                    assert(rest.len() < q@.len());
                }
                assert(rest.skip(1) =~= hay@.skip(i + 1));
                assert(rest[0] == hay@[i as int]);
            }
            let ghost before = out@;
            push_char(&mut out, hay[i]);
            proof {
                if rest.len() < q@.len() {
                    // Too short for a match: the rest is copied as it is.
                    assert(replace_all(rest, q@, w@) == rest);
                    assert(count_matches(rest, q@) == 0);
                    assert(replace_all(rest.skip(1), q@, w@) == rest.skip(1));
                    assert(count_matches(rest.skip(1), q@) == 0);
                    assert(rest =~= seq![rest[0]] + rest.skip(1));
                }
                assert(before + (seq![hay@[i as int]] + replace_all(hay@.skip(i + 1), q@, w@))
                    =~= out@ + replace_all(hay@.skip(i + 1), q@, w@));
            }
            i = i + 1;
        }
    }
    proof {
        assert(hay@.skip(i as int) =~= Seq::<char>::empty());
        assert(out@ + Seq::<char>::empty() =~= out@);
    }
    (out, count)
}

/// A column found in a line is a match there, at or after the start.
pub proof fn lemma_find_in_line_valid(hay: Seq<char>, needle: Seq<char>, start: int)
    ensures
        find_in_line(hay, needle, start) matches Some(c) ==> start <= c && needle.len() > 0
            && matches_at(hay, needle, c),
    decreases hay.len() - start,
{
    if needle.len() == 0 || start < 0 || start + needle.len() > hay.len() {
    } else if matches_at(hay, needle, start) {
    } else {
        lemma_find_in_line_valid(hay, needle, start + 1);
    }
}

/// A position found in the lines is on a line at or below `line`, at the
/// column found in that line.
pub proof fn lemma_find_in_lines_valid(lines: Seq<Seq<char>>, needle: Seq<char>, line: int, col: int)
    requires
        lines.len() <= usize::MAX,
    ensures
        find_in_lines(lines, needle, line, col) matches Some(p) ==> (line <= p.y < lines.len()
            && (find_in_line(lines[p.y as int], needle, if p.y == line {
            col
        } else {
            0
        }) matches Some(c) && p.x == c as usize)),
    decreases lines.len() - line,
{
    if line < 0 || line >= lines.len() {
    } else {
        match find_in_line(lines[line], needle, col) {
            Some(c) => {},
            None => {
                lemma_find_in_lines_valid(lines, needle, line + 1, 0);
            },
        }
    }
}

/// Every line with the occurrences of `needle` replaced by `with`, and the
/// number of occurrences (saturating at `usize::MAX`).
pub fn replace_in_all_lines(lines: &Vec<String>, needle: &str, with: &str) -> (res: (
    Vec<String>,
    usize,
))
    ensures
        lines_view(res.0@) == replace_in_lines(lines_view(lines@), needle@, with@),
        res.1 as int == crate::document::min_int(
            count_in_lines(lines_view(lines@), needle@) as int,
            usize::MAX as int,
        ),
{
    let ghost t = lines_view(lines@);
    let mut out: Vec<String> = Vec::new();
    let mut total: usize = 0;
    let mut i: usize = 0;
    assert(t.take(0) =~= Seq::<Seq<char>>::empty());
    while i < lines.len()
        invariant
            t == lines_view(lines@),
            i <= lines@.len(),
            lines_view(out@) == replace_in_lines(t.take(i as int), needle@, with@),
            total as int == crate::document::min_int(
                count_in_lines(t.take(i as int), needle@) as int,
                usize::MAX as int,
            ),
        decreases lines@.len() - i,
    {
        let (line, n) = replace_in_line(lines[i].as_str(), needle, with);
        proof {
            assert(t.take(i + 1).drop_last() =~= t.take(i as int));
            assert(t.take(i + 1).last() == lines@[i as int]@);
        }
        let ghost before = out@;
        out.push(line);
        proof {
            assert(out@ == before.push(line));
            assert(lines_view(out@) =~= lines_view(before).push(line@));
            let want = replace_in_lines(t.take(i + 1), needle@, with@);
            let had = replace_in_lines(t.take(i as int), needle@, with@);
            assert forall|k: int| 0 <= k < i implies want[k] == had[k] by {
                assert(t.take(i + 1)[k] == t.take(i as int)[k]);
            }
            assert(want[i as int] == replace_all(t[i as int], needle@, with@));
            assert(lines_view(out@) =~= want);
        }
        total = total.saturating_add(n);
        i += 1;
    }
    assert(t.take(i as int) =~= t);
    (out, total)
}

/// `line` with the `len` characters at column `x` replaced by `with`.
pub open spec fn replace_at(line: Seq<char>, x: int, len: int, with: Seq<char>) -> Seq<char> {
    line.take(x) + with + line.skip(x + len)
}

/// `line` with the `len` characters at column `x` replaced by `with`, and
/// the column right after the inserted text.
pub fn replace_span(line: &str, x: usize, len: usize, with: &str) -> (res: (String, usize))
    requires
        x + len <= line@.len(),
    ensures
        res.0@ == replace_at(line@, x as int, len as int, with@),
        res.1 == x + with@.len(),
{
    let cs = chars_of(line);
    let w = chars_of(with);
    let mut acc: Vec<char> = Vec::new();
    let mut k: usize = 0;
    while k < x
        invariant
            cs@ == line@,
            x + len <= cs@.len(),
            k <= x,
            acc@ == cs@.take(k as int),
        decreases x - k,
    {
        acc.push(cs[k]);
        k += 1;
        assert(acc@ =~= cs@.take(k as int));
    }
    let mut j: usize = 0;
    while j < w.len()
        invariant
            cs@ == line@,
            w@ == with@,
            x + len <= cs@.len(),
            j <= w@.len(),
            acc@ == cs@.take(x as int) + w@.take(j as int),
        decreases w@.len() - j,
    {
        acc.push(w[j]);
        j += 1;
        assert(acc@ =~= cs@.take(x as int) + w@.take(j as int));
    }
    assert(w@.take(j as int) =~= w@);
    let col = acc.len();
    let total_len = cs.len();
    assert(x + len <= total_len);
    let mut m: usize = x + len;
    while m < cs.len()
        invariant
            cs@ == line@,
            w@ == with@,
            x + len <= m <= cs@.len(),
            acc@ == cs@.take(x as int) + w@ + cs@.subrange(x + len, m as int),
        decreases cs@.len() - m,
    {
        acc.push(cs[m]);
        m += 1;
        assert(acc@ =~= cs@.take(x as int) + w@ + cs@.subrange(x + len, m as int));
    }
    assert(cs@.subrange(x + len, m as int) =~= cs@.skip(x + len));
    let mut out = String::new();
    push_chars(&mut out, &acc, 0, acc.len());
    assert(acc@.subrange(0, acc@.len() as int) =~= acc@);
    (out, col)
}

/// The number of occurrences of `needle` in all of `lines` (saturating at
/// `usize::MAX`).
pub fn count_in_all_lines(lines: &Vec<String>, needle: &str) -> (res: usize)
    ensures
        res as int == crate::document::min_int(
            count_in_lines(lines_view(lines@), needle@) as int,
            usize::MAX as int,
        ),
{
    let ghost t = lines_view(lines@);
    let mut total: usize = 0;
    let mut i: usize = 0;
    while i < lines.len()
        invariant
            t == lines_view(lines@),
            i <= lines@.len(),
            total as int == crate::document::min_int(
                count_in_lines(t.take(i as int), needle@) as int,
                usize::MAX as int,
            ),
        decreases lines@.len() - i,
    {
        let (_, n) = replace_in_line(lines[i].as_str(), needle, needle);
        proof {
            assert(t.take(i + 1).drop_last() =~= t.take(i as int));
            assert(t.take(i + 1).last() == lines@[i as int]@);
        }
        total = total.saturating_add(n);
        i += 1;
    }
    assert(t.take(i as int) =~= t);
    total
}

/// Replacing a text by itself changes nothing.
pub proof fn law_replace_by_itself(hay: Seq<char>, needle: Seq<char>)
    ensures
        replace_all(hay, needle, needle) == hay,
    decreases hay.len(),
{
    if needle.len() == 0 || hay.len() < needle.len() {
    } else if hay.take(needle.len() as int) == needle {
        law_replace_by_itself(hay.skip(needle.len() as int), needle);
        assert(needle + hay.skip(needle.len() as int) =~= hay);
    } else {
        law_replace_by_itself(hay.skip(1), needle);
        assert(seq![hay[0]] + hay.skip(1) =~= hay);
    }
}

/// Where nothing occurs, replacing changes nothing.
pub proof fn law_replace_without_match(hay: Seq<char>, needle: Seq<char>, with: Seq<char>)
    requires
        count_matches(hay, needle) == 0,
    ensures
        replace_all(hay, needle, with) == hay,
    decreases hay.len(),
{
    if needle.len() == 0 || hay.len() < needle.len() {
    } else if hay.take(needle.len() as int) == needle {
    } else {
        law_replace_without_match(hay.skip(1), needle, with);
        assert(seq![hay[0]] + hay.skip(1) =~= hay);
    }
}

/// A position that find gives is an occurrence of the text searched for,
/// at or after where the search started.
pub proof fn law_find_gives_match(lines: Seq<Seq<char>>, needle: Seq<char>, line: int, col: int)
    requires
        lines.len() <= usize::MAX,
        forall|i: int| 0 <= i < lines.len() ==> #[trigger] lines[i].len() <= usize::MAX,
    ensures
        find_in_lines(lines, needle, line, col) matches Some(p) ==> (matches_at(
            lines[p.y as int],
            needle,
            p.x as int,
        ) && line <= p.y && (p.y == line ==> col <= p.x)),
{
    lemma_find_in_lines_valid(lines, needle, line, col);
    match find_in_lines(lines, needle, line, col) {
        Some(p) => {
            let start = if p.y == line {
                col
            } else {
                0
            };
            lemma_find_in_line_valid(lines[p.y as int], needle, start);
            assert(lines[p.y as int].len() <= usize::MAX);
        },
        None => {},
    }
}

} // verus!
