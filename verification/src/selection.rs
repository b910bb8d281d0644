//! Selections: ranges between two positions of the buffer.
use vstd::prelude::*;

use crate::document::{join_lines, lines_view, min_int, slice_chars, slice_of, Position};
use crate::text::{chars_of, push_char, push_chars, push_str};

verus! {

/// A range of the buffer from `start` to `end` (end not included).
#[derive(Clone, Copy, PartialEq, Eq, Debug, Structural)]
pub struct SelectionRange {
    pub start: Position,
    pub end: Position,
}

/// Whether `a` comes before `b` or equals it, ordering by line, then column.
pub open spec fn pos_le(a: Position, b: Position) -> bool {
    a.y < b.y || (a.y == b.y && a.x <= b.x)
}

/// The selection between `anchor` and `cursor`, ordered so that its start
/// comes first; `None` without an anchor or when anchor and cursor coincide.
pub open spec fn spec_normalized_selection(anchor: Option<Position>, cursor: Position) -> Option<
    SelectionRange,
> {
    match anchor {
        None => None,
        Some(a) => if a == cursor {
            None
        } else if pos_le(a, cursor) {
            Some(SelectionRange { start: a, end: cursor })
        } else {
            Some(SelectionRange { start: cursor, end: a })
        },
    }
}

/// The selection between `anchor` and `cursor`, start first.
pub fn normalized_selection(anchor: Option<Position>, cursor: Position) -> (res: Option<
    SelectionRange,
>)
    ensures
        res == spec_normalized_selection(anchor, cursor),
{
    let anchor = match anchor {
        Some(a) => a,
        None => return None,
    };
    if anchor == cursor {
        return None;
    }
    if anchor.y < cursor.y || (anchor.y == cursor.y && anchor.x <= cursor.x) {
        Some(SelectionRange { start: anchor, end: cursor })
    } else {
        Some(SelectionRange { start: cursor, end: anchor })
    }
}

/// The columns `[start, end)` of line `line_idx` (of `line_len` characters)
/// that `selection` covers, clipped to the line; `None` when it covers none
/// of them.
pub open spec fn spec_selection_range_for_line(selection: SelectionRange, line_idx: int, line_len: int) -> Option<(int, int)> {
    if line_idx < selection.start.y || line_idx > selection.end.y {
        None
    } else {
        let start = if line_idx == selection.start.y {
            selection.start.x as int
        } else {
            0
        };
        let end = if line_idx == selection.end.y {
            selection.end.x as int
        } else {
            line_len
        };
        if start < end {
            Some((min_int(start, line_len), min_int(end, line_len)))
        } else {
            None
        }
    }
}

/// The columns of line `line_idx` (of `line_len` characters) that
/// `selection` covers.
pub fn selection_range_for_line(selection: SelectionRange, line_idx: usize, line_len: usize) -> (res:
    Option<(usize, usize)>)
    ensures
        match res {
            None => spec_selection_range_for_line(selection, line_idx as int, line_len as int) is None,
            Some((s, e)) => spec_selection_range_for_line(selection, line_idx as int, line_len as int)
                == Some((s as int, e as int)),
        },
{
    if line_idx < selection.start.y || line_idx > selection.end.y {
        return None;
    }
    let start = if line_idx == selection.start.y {
        selection.start.x
    } else {
        0
    };
    let end = if line_idx == selection.end.y {
        selection.end.x
    } else {
        line_len
    };
    if start < end {
        let s = if start < line_len {
            start
        } else {
            line_len
        };
        let e = if end < line_len {
            end
        } else {
            line_len
        };
        Some((s, e))
    } else {
        None
    }
}

/// The whole lines strictly between the first and the last line of the
/// selection, as far as the buffer has them.
pub open spec fn middle_lines(t: Seq<Seq<char>>, selection: SelectionRange) -> Seq<Seq<char>> {
    let s = selection.start.y as int;
    let e = selection.end.y as int;
    if s + 1 < e {
        t.subrange(min_int(s + 1, t.len() as int), min_int(e, t.len() as int))
    } else {
        Seq::empty()
    }
}

/// Line `i` of `t`, or the empty line when `t` has no line `i`.
pub open spec fn line_or_empty(t: Seq<Seq<char>>, i: int) -> Seq<char> {
    if 0 <= i < t.len() {
        t[i]
    } else {
        Seq::empty()
    }
}

/// The text that `selection` covers in `t`, lines joined with `'\n'`.
pub open spec fn spec_selected_text(t: Seq<Seq<char>>, selection: SelectionRange) -> Seq<char> {
    let sy = selection.start.y as int;
    let ey = selection.end.y as int;
    if sy == ey {
        slice_of(line_or_empty(t, sy), selection.start.x as int, selection.end.x as int)
    } else {
        let first = line_or_empty(t, sy);
        let last = line_or_empty(t, ey);
        join_lines(
            seq![slice_of(first, selection.start.x as int, first.len() as int)] + middle_lines(
                t,
                selection,
            ) + seq![slice_of(last, 0, selection.end.x as int)],
        )
    }
}

proof fn lemma_join_push(p: Seq<Seq<char>>, x: Seq<char>)
    requires
        p.len() >= 1,
    ensures
        join_lines(p.push(x)) == join_lines(p).push('\n') + x,
{
    assert(p.push(x).drop_last() =~= p);
}

/// The text that `selection` covers in `lines`.
pub fn selected_text_in_lines(lines: &[String], selection: SelectionRange) -> (res: String)
    ensures
        res@ == spec_selected_text(lines_view(lines@), selection),
{
    let ghost t = lines_view(lines@);
    let n = lines.len();
    if selection.start.y == selection.end.y {
        if selection.start.y < n {
            return slice_chars(lines[selection.start.y].as_str(), selection.start.x, selection.end.x);
        } else {
            let r = String::new();
            assert(r@ =~= spec_selected_text(t, selection));
            return r;
        }
    }
    let mut out = if selection.start.y < n {
        let first_len = chars_of(lines[selection.start.y].as_str()).len();
        slice_chars(lines[selection.start.y].as_str(), selection.start.x, first_len)
    } else {
        String::new()
    };
    let ghost first_part = out@;
    assert(first_part == slice_of(
        line_or_empty(t, selection.start.y as int),
        selection.start.x as int,
        line_or_empty(t, selection.start.y as int).len() as int,
    ));
    let ghost mid = middle_lines(t, selection);
    let lo: usize = if selection.start.y < n {
        selection.start.y + 1
    } else {
        n
    };
    let hi: usize = if selection.end.y < n {
        selection.end.y
    } else {
        n
    };
    let lo = if lo < hi {
        lo
    } else {
        hi
    };
    assert(mid =~= t.subrange(lo as int, hi as int));
    let mut i = lo;
    assert(seq![first_part] + t.subrange(lo as int, lo as int) =~= seq![first_part]);
    assert(join_lines(seq![first_part]) == first_part);
    while i < hi
        invariant
            lo <= i <= hi <= n,
            n == lines@.len(),
            t == lines_view(lines@),
            out@ == join_lines(seq![first_part] + t.subrange(lo as int, i as int)),
        decreases hi - i,
    {
        proof {
            lemma_join_push(seq![first_part] + t.subrange(lo as int, i as int), t[i as int]);
            assert(seq![first_part] + t.subrange(lo as int, i + 1) =~= (seq![first_part]
                + t.subrange(lo as int, i as int)).push(t[i as int]));
        }
        push_char(&mut out, '\n');
        push_str(&mut out, lines[i].as_str());
        i += 1;
    }
    let last = if selection.end.y < n {
        slice_chars(lines[selection.end.y].as_str(), 0, selection.end.x)
    } else {
        String::new()
    };
    proof {
        lemma_join_push(seq![first_part] + mid, last@);
        assert(seq![first_part] + mid + seq![last@] =~= (seq![first_part] + mid).push(last@));
        assert(last@ == slice_of(
            line_or_empty(t, selection.end.y as int),
            0,
            selection.end.x as int,
        ));
    }
    push_char(&mut out, '\n');
    push_str(&mut out, last.as_str());
    out
}

/// The lines after deleting what `selection` covers, before an empty buffer
/// is given its one empty line.
pub open spec fn delete_selection_lines(t: Seq<Seq<char>>, selection: SelectionRange) -> Seq<Seq<char>> {
    let sy = selection.start.y as int;
    let ey = selection.end.y as int;
    if sy == ey {
        if sy < t.len() {
            let line = t[sy];
            let a = min_int(selection.start.x as int, line.len() as int);
            let b = min_int(selection.end.x as int, line.len() as int);
            t.update(sy, line.take(a) + line.skip(b))
        } else {
            t
        }
    } else {
        let prefix = slice_of(line_or_empty(t, sy), 0, selection.start.x as int);
        let last = line_or_empty(t, ey);
        let suffix = slice_of(last, selection.end.x as int, last.len() as int);
        let merged = if sy < t.len() {
            t.update(sy, prefix + suffix)
        } else {
            t
        };
        if sy < ey && ey < t.len() {
            merged.take(sy + 1) + merged.skip(ey + 1)
        } else {
            merged
        }
    }
}

/// Deletes what `selection` covers from `lines`, joining the text before
/// its start to the text after its end; leaves at least one line. Returns
/// the start of the selection, where the cursor goes.
pub fn delete_selection_in_lines(lines: &mut Vec<String>, selection: SelectionRange) -> (res:
    Position)
    requires
        ({
            let t = lines_view(old(lines)@);
            let sy = selection.start.y as int;
            sy == selection.end.y && sy < t.len() ==> min_int(
                selection.start.x as int,
                t[sy].len() as int,
            ) <= min_int(selection.end.x as int, t[sy].len() as int)
        }),
    ensures
        res == selection.start,
        ({
            let d = delete_selection_lines(lines_view(old(lines)@), selection);
            lines_view(final(lines)@) == if d.len() == 0 {
                seq![Seq::<char>::empty()]
            } else {
                d
            }
        }),
{
    let ghost t = lines_view(lines@);
    if selection.start.y == selection.end.y {
        if selection.start.y < lines.len() {
            let cs = chars_of(lines[selection.start.y].as_str());
            let a = if selection.start.x < cs.len() {
                selection.start.x
            } else {
                cs.len()
            };
            let b = if selection.end.x < cs.len() {
                selection.end.x
            } else {
                cs.len()
            };
            let mut s = String::new();
            push_chars(&mut s, &cs, 0, a);
            push_chars(&mut s, &cs, b, cs.len());
            lines.set(selection.start.y, s);
            assert(lines_view(lines@) =~= delete_selection_lines(t, selection));
        }
    } else {
        let first_prefix = if selection.start.y < lines.len() {
            slice_chars(lines[selection.start.y].as_str(), 0, selection.start.x)
        } else {
            String::new()
        };
        let last_suffix = if selection.end.y < lines.len() {
            let last_len = chars_of(lines[selection.end.y].as_str()).len();
            slice_chars(lines[selection.end.y].as_str(), selection.end.x, last_len)
        } else {
            String::new()
        };
        let ghost sy = selection.start.y as int;
        let ghost ey = selection.end.y as int;
        assert(first_prefix@ == slice_of(line_or_empty(t, sy), 0, selection.start.x as int));
        if selection.start.y < lines.len() {
            let mut merged = first_prefix;
            push_str(&mut merged, last_suffix.as_str());
            lines.set(selection.start.y, merged);
        }
        let ghost merged_view = lines_view(lines@);
        assert(merged_view =~= if sy < t.len() {
            t.update(sy, first_prefix@ + last_suffix@)
        } else {
            t
        });
        if selection.start.y < selection.end.y && selection.end.y < lines.len() {
            let mut k = selection.start.y;
            assert(merged_view.take(sy + 1) + merged_view.skip(sy + 1) =~= merged_view);
            while k < selection.end.y
                invariant
                    selection.start.y <= k <= selection.end.y,
                    selection.end.y < merged_view.len(),
                    lines_view(lines@) == merged_view.take(selection.start.y + 1)
                        + merged_view.skip(k + 1),
                    lines@.len() == selection.start.y + 1 + merged_view.len() - (k + 1),
                decreases selection.end.y - k,
            {
                let ghost before = lines_view(lines@);
                lines.remove(selection.start.y + 1);
                assert(lines_view(lines@) =~= before.remove(selection.start.y + 1));
                assert(before.remove(selection.start.y + 1) =~= merged_view.take(selection.start.y + 1)
                    + merged_view.skip(k + 2));
                k += 1;
            }
        }
        assert(lines_view(lines@) =~= delete_selection_lines(t, selection));
    }
    if lines.len() == 0 {
        lines.push(String::new());
        assert(lines_view(lines@) =~= seq![Seq::<char>::empty()]);
    }
    selection.start
}

/// A selection starts before it ends, and never is empty.
pub proof fn law_selection_ordered(anchor: Option<Position>, cursor: Position)
    ensures
        spec_normalized_selection(anchor, cursor) matches Some(s) ==> (pos_le(s.start, s.end)
            && s.start != s.end),
{
}

/// The selection between two positions does not depend on which one is the
/// anchor.
pub proof fn law_selection_symmetric(a: Position, c: Position)
    ensures
        spec_normalized_selection(Some(a), c) == spec_normalized_selection(Some(c), a),
{
}

proof fn lemma_join_concat(a: Seq<Seq<char>>, b: Seq<Seq<char>>)
    requires
        a.len() >= 1,
        b.len() >= 1,
    ensures
        join_lines(a + b) == join_lines(a) + seq!['\n'] + join_lines(b),
    decreases b.len(),
{
    if b.len() == 1 {
        assert(a + b =~= a.push(b[0]));
        lemma_join_push(a, b[0]);
        assert(join_lines(b) == b[0]);
        assert(join_lines(a).push('\n') + b[0] =~= join_lines(a) + seq!['\n'] + b[0]);
    } else {
        let b1 = b.drop_last();
        lemma_join_concat(a, b1);
        assert(a + b =~= (a + b1).push(b.last()));
        lemma_join_push(a + b1, b.last());
        lemma_join_push(b1, b.last());
        assert(b1.push(b.last()) =~= b);
        assert((join_lines(a) + seq!['\n'] + join_lines(b1)).push('\n') + b.last() =~= join_lines(a)
            + seq!['\n'] + (join_lines(b1).push('\n') + b.last()));
    }
}

/// Joining lines with a group of them joined first gives the same text.
proof fn lemma_join_group(pre: Seq<Seq<char>>, ls: Seq<Seq<char>>, post: Seq<Seq<char>>)
    requires
        ls.len() >= 1,
    ensures
        join_lines(pre + ls + post) == join_lines(pre + seq![join_lines(ls)] + post),
{
    let g = seq![join_lines(ls)];
    assert(join_lines(g) == join_lines(ls));
    if pre.len() == 0 {
        assert(pre + ls + post =~= ls + post);
        assert(pre + g + post =~= g + post);
        if post.len() > 0 {
            lemma_join_concat(ls, post);
            lemma_join_concat(g, post);
        } else {
            assert(ls + post =~= ls);
            assert(g + post =~= g);
        }
    } else {
        assert(pre + ls + post =~= pre + (ls + post));
        assert(pre + g + post =~= pre + (g + post));
        lemma_join_concat(pre, ls + post);
        lemma_join_concat(pre, g + post);
        if post.len() > 0 {
            lemma_join_concat(ls, post);
            lemma_join_concat(g, post);
        } else {
            assert(ls + post =~= ls);
            assert(g + post =~= g);
        }
    }
}

/// Adding text before the first line and after the last line adds it
/// before and after the joined text.
proof fn lemma_join_ends(p: Seq<char>, ls: Seq<Seq<char>>, q: Seq<char>)
    requires
        ls.len() >= 1,
    ensures
        join_lines(ls.update(0, p + ls[0]).update(ls.len() - 1, ls.update(0, p + ls[0])[ls.len() - 1]
            + q)) == p + join_lines(ls) + q,
    decreases ls.len(),
{
    let l1 = ls.update(0, p + ls[0]);
    let l2 = l1.update(ls.len() - 1, l1[ls.len() - 1] + q);
    if ls.len() == 1 {
        assert(join_lines(l2) == l2[0]);
        assert(l2[0] =~= p + ls[0] + q);
    } else {
        let init = ls.drop_last();
        let init1 = init.update(0, p + init[0]);
        assert(l2 =~= init1.push(ls.last() + q));
        assert(ls =~= init.push(ls.last()));
        lemma_join_push(init1, ls.last() + q);
        lemma_join_push(init, ls.last());
        lemma_join_first(p, init);
        assert(join_lines(init1).push('\n') + (ls.last() + q) =~= p + (join_lines(init).push('\n')
            + ls.last()) + q);
    }
}

proof fn lemma_join_first(p: Seq<char>, ls: Seq<Seq<char>>)
    requires
        ls.len() >= 1,
    ensures
        join_lines(ls.update(0, p + ls[0])) == p + join_lines(ls),
    decreases ls.len(),
{
    let l1 = ls.update(0, p + ls[0]);
    if ls.len() == 1 {
        assert(join_lines(l1) == l1[0]);
    } else {
        let init = ls.drop_last();
        lemma_join_first(p, init);
        assert(l1 =~= init.update(0, p + init[0]).push(ls.last()));
        assert(ls =~= init.push(ls.last()));
        lemma_join_push(init.update(0, p + init[0]), ls.last());
        lemma_join_push(init, ls.last());
        assert((p + join_lines(init)).push('\n') + ls.last() =~= p + (join_lines(init).push('\n')
            + ls.last()));
    }
}

/// Deleting a selection removes exactly the text it covers: the lines
/// before and after it stay, the text before its start joins the text
/// after its end, and putting the selected text back between them gives
/// back the buffer.
pub proof fn law_delete_removes_selected_text(t: Seq<Seq<char>>, sel: SelectionRange)
    requires
        pos_le(sel.start, sel.end),
        sel.end.y < t.len(),
        sel.start.x <= t[sel.start.y as int].len(),
        sel.end.x <= t[sel.end.y as int].len(),
    ensures
        ({
            let sy = sel.start.y as int;
            let ey = sel.end.y as int;
            let head = t[sy].take(sel.start.x as int);
            let tail = t[ey].skip(sel.end.x as int);
            &&& delete_selection_lines(t, sel) == t.take(sy) + seq![head + tail] + t.skip(ey + 1)
            &&& head + spec_selected_text(t, sel) + tail == join_lines(t.subrange(sy, ey + 1))
            &&& join_lines(t) == join_lines(
                t.take(sy) + seq![head + spec_selected_text(t, sel) + tail] + t.skip(ey + 1),
            )
        }),
{
    let sy = sel.start.y as int;
    let ey = sel.end.y as int;
    let sx = sel.start.x as int;
    let ex = sel.end.x as int;
    let first = t[sy];
    let last = t[ey];
    let head = first.take(sx);
    let tail = last.skip(ex);
    let pre = t.take(sy);
    let post = t.skip(ey + 1);
    let ls = t.subrange(sy, ey + 1);
    assert(t =~= pre + ls + post);
    lemma_join_group(pre, ls, post);
    if sy == ey {
        let mid = slice_of(first, sx, ex);
        assert(first =~= head + mid + tail);
        assert(ls =~= seq![first]);
        assert(join_lines(ls) == first);
        assert(delete_selection_lines(t, sel) =~= pre + seq![head + tail] + post);
    } else {
        let mids = middle_lines(t, sel);
        let a = slice_of(first, sx, first.len() as int);
        let b = slice_of(last, 0, ex);
        assert(a =~= first.skip(sx));
        assert(b =~= last.take(ex));
        let sl = seq![a] + mids + seq![b];
        assert(mids =~= t.subrange(sy + 1, ey));
        assert(sl.len() == ls.len());
        let sl1 = sl.update(0, head + sl[0]);
        let sl2 = sl1.update(sl.len() - 1, sl1[sl.len() - 1] + tail);
        assert(sl2 =~= ls) by {
            assert(head + a =~= first);
            assert(b + tail =~= last);
        }
        lemma_join_ends(head, sl, tail);
        assert(spec_selected_text(t, sel) == join_lines(sl));
        assert(slice_of(first, 0, sx) =~= head);
        assert(slice_of(last, ex, last.len() as int) =~= tail);
        assert(delete_selection_lines(t, sel) =~= pre + seq![head + tail] + post);
    }
}

/// The length of the first `y` lines of `t`, each with its line break.
pub open spec fn lines_len_before(t: Seq<Seq<char>>, y: int) -> int
    decreases y,
{
    if y <= 0 {
        0
    } else {
        lines_len_before(t, y - 1) + t[y - 1].len() + 1
    }
}

/// The offset of position `p` in the text of the lines `t` joined with line
/// breaks: the lines above it, each with its line break, and its column.
pub open spec fn text_offset(t: Seq<Seq<char>>, p: Position) -> int {
    lines_len_before(t, p.y as int) + p.x
}

/// The joined text of the first `y` lines, with a line break after it, is
/// as long as those lines with their line breaks.
proof fn lemma_join_take_len(t: Seq<Seq<char>>, y: int)
    requires
        1 <= y <= t.len(),
    ensures
        join_lines(t.take(y)).len() + 1 == lines_len_before(t, y),
    decreases y,
{
    if y == 1 {
        assert(lines_len_before(t, 0) == 0);
        assert(join_lines(t.take(1)) == t[0]);
    } else {
        lemma_join_take_len(t, y - 1);
        assert(t.take(y) =~= t.take(y - 1).push(t[y - 1]));
        lemma_join_push(t.take(y - 1), t[y - 1]);
    }
}

/// The text of the lines `pre`, with a line break after it (nothing where
/// there are none).
pub open spec fn text_before(pre: Seq<Seq<char>>) -> Seq<char> {
    if pre.len() == 0 {
        Seq::empty()
    } else {
        join_lines(pre).push('\n')
    }
}

/// The text of the lines `post`, with a line break before it (nothing
/// where there are none).
pub open spec fn text_after(post: Seq<Seq<char>>) -> Seq<char> {
    if post.len() == 0 {
        Seq::empty()
    } else {
        seq!['\n'] + join_lines(post)
    }
}

/// Joining lines around the line `m` puts `m` between the text before and
/// the text after it.
proof fn lemma_join_around(pre: Seq<Seq<char>>, m: Seq<char>, post: Seq<Seq<char>>)
    ensures
        join_lines(pre + seq![m] + post) == text_before(pre) + m + text_after(post),
{
    let mid = seq![m];
    assert(join_lines(mid) == m);
    assert(join_lines(mid + post) == m + text_after(post)) by {
        if post.len() == 0 {
            assert(mid + post =~= mid);
            assert(m + text_after(post) =~= m);
        } else {
            lemma_join_concat(mid, post);
            assert(join_lines(mid) + seq!['\n'] + join_lines(post) =~= m + (seq!['\n'] + join_lines(post)));
        }
    }
    if pre.len() == 0 {
        assert(pre + mid + post =~= mid + post);
        assert(text_before(pre) + m + text_after(post) =~= m + text_after(post));
    } else {
        assert(pre + mid + post =~= pre + (mid + post));
        lemma_join_concat(pre, mid + post);
        assert(join_lines(pre) + seq!['\n'] + (m + text_after(post)) =~= text_before(pre) + m + text_after(
            post,
        ));
    }
}

/// In offsets of the buffer's text (its lines joined with line breaks):
/// the selected text is the text from the selection's start to its end, and
/// deleting the selection leaves the text before its start followed by the
/// text after its end, in at least one line.
pub proof fn law_delete_selection_in_text(t: Seq<Seq<char>>, sel: SelectionRange)
    requires
        pos_le(sel.start, sel.end),
        sel.end.y < t.len(),
        sel.start.x <= t[sel.start.y as int].len(),
        sel.end.x <= t[sel.end.y as int].len(),
    ensures
        ({
            let text = join_lines(t);
            let s = text_offset(t, sel.start);
            let e = text_offset(t, sel.end);
            &&& 0 <= s <= e <= text.len()
            &&& spec_selected_text(t, sel) == text.subrange(s, e)
            &&& join_lines(delete_selection_lines(t, sel)) == text.take(s) + text.skip(e)
            &&& delete_selection_lines(t, sel).len() >= 1
        }),
{
    let sy = sel.start.y as int;
    let ey = sel.end.y as int;
    let sx = sel.start.x as int;
    let ex = sel.end.x as int;
    let head = t[sy].take(sx);
    let tail = t[ey].skip(ex);
    let pre = t.take(sy);
    let post = t.skip(ey + 1);
    let g = t.subrange(sy, ey + 1);
    let sel_text = spec_selected_text(t, sel);
    law_delete_removes_selected_text(t, sel);
    let text = join_lines(t);
    let a = text_before(pre);
    let r = text_after(post);
    lemma_join_around(pre, head + sel_text + tail, post);
    lemma_join_around(pre, head + tail, post);
    assert(text == a + head + sel_text + tail + r);
    // The length of the text before the start line.
    assert(a.len() == lines_len_before(t, sy)) by {
        if sy > 0 {
            lemma_join_take_len(t, sy);
        }
    }
    // The lines up to the end line hold the text before the start line and
    // the spanned lines.
    assert(lines_len_before(t, ey + 1) == lines_len_before(t, sy) + join_lines(g).len() + 1) by {
        lemma_join_take_len(t, ey + 1);
        if sy == 0 {
            assert(t.take(ey + 1) =~= g);
        } else {
            assert(t.take(ey + 1) =~= pre + g);
            lemma_join_concat(pre, g);
            lemma_join_take_len(t, sy);
        }
    }
    assert(head.len() == sx);
    assert(tail.len() == t[ey].len() - ex);
    assert(join_lines(g).len() == head.len() + sel_text.len() + tail.len());
    let s = text_offset(t, sel.start);
    let e = text_offset(t, sel.end);
    assert(s == a.len() + head.len());
    assert(e == a.len() + head.len() + sel_text.len());
    assert(text.subrange(s, e) =~= sel_text);
    assert(text.take(s) =~= a + head);
    assert(text.skip(e) =~= tail + r);
    assert(join_lines(delete_selection_lines(t, sel)) =~= text.take(s) + text.skip(e));
}

/// The joined text of some lines is at least as long as the joined text of
/// a group of them.
pub proof fn lemma_join_group_len(pre: Seq<Seq<char>>, g: Seq<Seq<char>>, post: Seq<Seq<char>>)
    requires
        g.len() >= 1,
    ensures
        join_lines(g).len() <= join_lines(pre + g + post).len(),
{
    lemma_join_group(pre, g, post);
    let x = seq![join_lines(g)];
    assert(join_lines(x) == join_lines(g));
    if pre.len() == 0 {
        assert(pre + x + post =~= x + post);
        if post.len() > 0 {
            lemma_join_concat(x, post);
        } else {
            assert(x + post =~= x);
        }
    } else {
        assert(pre + x + post =~= pre + (x + post));
        lemma_join_concat(pre, x + post);
        if post.len() > 0 {
            lemma_join_concat(x, post);
        } else {
            assert(x + post =~= x);
        }
    }
}

/// Whether column `k` lies in the columns `r` picked for a line.
pub open spec fn covers(r: Option<(int, int)>, k: int) -> bool {
    match r {
        Some((s, e)) => s <= k < e,
        None => false,
    }
}

/// The columns highlighted on a line are exactly those of its characters
/// whose position (line, column) lies in the selection: at or after its
/// start and before its end, in reading order.
pub proof fn law_highlight_is_the_selection(sel: SelectionRange, line_idx: int, line_len: int, k: int)
    requires
        line_len >= 0,
    ensures
        covers(spec_selection_range_for_line(sel, line_idx, line_len), k) <==> (0 <= k < line_len
            && (line_idx > sel.start.y || (line_idx == sel.start.y && k >= sel.start.x)) && (line_idx
            < sel.end.y || (line_idx == sel.end.y && k < sel.end.x))),
{
}

} // verus!
