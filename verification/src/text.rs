//! Character-level helpers shared by the editor: character classes,
//! conversions between strings and character vectors, and the UTF-8
//! byte offsets of character positions.
use vstd::prelude::*;
use vstd::string::StringSliceAdditionalSpecFns;
use vstd::utf8::*;

verus! {

/// The Unicode `White_Space` property, which `char::is_whitespace` tests.
pub open spec fn spec_is_whitespace(c: char) -> bool {
    let v = c as u32;
    ||| (0x09 <= v <= 0x0D)
    ||| v == 0x20
    ||| v == 0x85
    ||| v == 0xA0
    ||| v == 0x1680
    ||| (0x2000 <= v <= 0x200A)
    ||| v == 0x2028
    ||| v == 0x2029
    ||| v == 0x202F
    ||| v == 0x205F
    ||| v == 0x3000
}

/// Whether `c` has the Unicode `White_Space` property.
pub fn is_whitespace(c: char) -> (res: bool)
    ensures
        res == spec_is_whitespace(c),
{
    let v = c as u32;
    (0x09 <= v && v <= 0x0D) || v == 0x20 || v == 0x85 || v == 0xA0 || v == 0x1680 || (0x2000
        <= v && v <= 0x200A) || v == 0x2028 || v == 0x2029 || v == 0x202F || v == 0x205F || v
        == 0x3000
}

/// Whether `c` is an ASCII digit.
pub open spec fn spec_is_ascii_digit(c: char) -> bool {
    '0' <= c <= '9'
}

/// Whether `c` is an ASCII letter.
pub open spec fn spec_is_ascii_alphabetic(c: char) -> bool {
    ('a' <= c <= 'z') || ('A' <= c <= 'Z')
}

/// Whether `c` is an ASCII letter or digit.
pub open spec fn spec_is_ascii_alphanumeric(c: char) -> bool {
    spec_is_ascii_digit(c) || spec_is_ascii_alphabetic(c)
}

/// Whether `c` is one of `'0'..='9'`.
pub fn is_ascii_digit(c: char) -> (res: bool)
    ensures
        res == spec_is_ascii_digit(c),
{
    '0' <= c && c <= '9'
}

/// Whether `c` is an ASCII letter.
pub fn is_ascii_alphabetic(c: char) -> (res: bool)
    ensures
        res == spec_is_ascii_alphabetic(c),
{
    ('a' <= c && c <= 'z') || ('A' <= c && c <= 'Z')
}

/// Whether `c` is an ASCII letter or digit.
pub fn is_ascii_alphanumeric(c: char) -> (res: bool)
    ensures
        res == spec_is_ascii_alphanumeric(c),
{
    is_ascii_digit(c) || is_ascii_alphabetic(c)
}

/// Index of the first non-whitespace character of `s` at or after `i`,
/// or `s.len()` when there is none.
pub open spec fn ws_run_end(s: Seq<char>, i: int) -> int
    decreases s.len() - i,
{
    if 0 <= i < s.len() && spec_is_whitespace(s[i]) {
        ws_run_end(s, i + 1)
    } else {
        i
    }
}

/// Index of the first non-whitespace character of `s`, or `s.len()`.
pub open spec fn first_non_ws(s: Seq<char>) -> int {
    ws_run_end(s, 0)
}

/// The whitespace run from `i` ends inside `s`, on a character that is not
/// whitespace when there is one.
pub proof fn lemma_ws_run_end(s: Seq<char>, i: int)
    requires
        0 <= i <= s.len(),
    ensures
        i <= ws_run_end(s, i) <= s.len(),
        forall|k: int| i <= k < ws_run_end(s, i) ==> spec_is_whitespace(#[trigger] s[k]),
        ws_run_end(s, i) < s.len() ==> !spec_is_whitespace(s[ws_run_end(s, i)]),
    decreases s.len() - i,
{
    if i < s.len() && spec_is_whitespace(s[i]) {
        lemma_ws_run_end(s, i + 1);
    }
}

/// Position of the first non-whitespace character of `chars`, or its length.
pub fn first_non_whitespace(chars: &[char]) -> (res: usize)
    ensures
        res == first_non_ws(chars@),
        res <= chars@.len(),
{
    let mut i: usize = 0;
    proof {
        lemma_ws_run_end(chars@, 0);
    }
    while i < chars.len() && is_whitespace(chars[i])
        invariant
            0 <= i <= chars@.len(),
            ws_run_end(chars@, i as int) == first_non_ws(chars@),
        decreases chars@.len() - i,
    {
        i += 1;
    }
    proof {
        lemma_ws_run_end(chars@, i as int);
    }
    i
}

/// Whether some character of `s` in `[start, end)` is not whitespace.
pub open spec fn has_non_ws(s: Seq<char>, start: int, end: int) -> bool {
    exists|k: int| start <= k < end && !spec_is_whitespace(#[trigger] s[k])
}

/// Whether every character of `s` is whitespace (this holds of the empty sequence).
pub open spec fn all_ws(s: Seq<char>) -> bool {
    forall|k: int| 0 <= k < s.len() ==> spec_is_whitespace(#[trigger] s[k])
}

/// The characters of a string slice, collected into a vector.
pub fn chars_of(s: &str) -> (res: Vec<char>)
    ensures
        res@ == s@,
{
    let mut res: Vec<char> = Vec::new();
    for c in it: s.chars()
        invariant
            res@ == it.seq().take(it.index() as int),
            it.seq() == s@,
    {
        res.push(c);
    }
    res
}

/// Appends one character to a string.
/// Calls `String::push`, which (by its documentation) appends the given
/// `char` to the end of the string.
#[verifier::external_body]
pub(crate) fn push_char(s: &mut String, c: char)
    ensures
        final(s)@ == old(s)@.push(c),
{
    s.push(c);
}

/// Appends every character of `tail[start..end]` to `s`.
pub fn push_chars(s: &mut String, tail: &[char], start: usize, end: usize)
    requires
        start <= end <= tail@.len(),
    ensures
        final(s)@ == old(s)@ + tail@.subrange(start as int, end as int),
{
    let mut i = start;
    while i < end
        invariant
            start <= i <= end <= tail@.len(),
            s@ == old(s)@ + tail@.subrange(start as int, i as int),
        decreases end - i,
    {
        push_char(s, tail[i]);
        assert(tail@.subrange(start as int, i + 1) =~= tail@.subrange(start as int, i as int).push(
            tail@[i as int],
        ));
        i += 1;
    }
}

/// Appends every character of `t` to `s`.
pub fn push_str(s: &mut String, t: &str)
    ensures
        final(s)@ == old(s)@ + t@,
{
    let cs = chars_of(t);
    push_chars(s, &cs, 0, cs.len());
    assert(cs@.subrange(0, cs@.len() as int) =~= cs@);
}

/// A string holding the characters `chars[start..end]`.
pub fn string_from_chars(chars: &[char], start: usize, end: usize) -> (res: String)
    requires
        start <= end <= chars@.len(),
    ensures
        res@ == chars@.subrange(start as int, end as int),
{
    let mut s = String::new();
    push_chars(&mut s, chars, start, end);
    assert(Seq::<char>::empty() + chars@.subrange(start as int, end as int) =~= chars@.subrange(
        start as int,
        end as int,
    ));
    s
}

/// The number of bytes of the UTF-8 encoding of `c`.
pub open spec fn utf8_width(c: char) -> nat {
    encode_scalar(c as u32).len()
}

/// The number of bytes that `c` takes in UTF-8.
pub fn char_utf8_len(c: char) -> (res: usize)
    ensures
        res == utf8_width(c),
        1 <= res <= 4,
{
    let v = c as u32;
    proof {
        char_is_scalar(c);
    }
    if v <= 0x7F {
        1
    } else if v <= 0x7FF {
        2
    } else if v <= 0xFFFF {
        3
    } else {
        4
    }
}

/// The UTF-8 encoding of two texts one after the other is the encodings one
/// after the other.
pub proof fn lemma_encode_utf8_append(a: Seq<char>, b: Seq<char>)
    ensures
        encode_utf8(a + b) == encode_utf8(a) + encode_utf8(b),
    decreases a.len(),
{
    if a.len() == 0 {
        assert(a + b =~= b);
        assert(encode_utf8(a) =~= Seq::<u8>::empty());
        assert(encode_utf8(a) + encode_utf8(b) =~= encode_utf8(b));
    } else {
        assert((a + b).drop_first() =~= a.drop_first() + b);
        lemma_encode_utf8_append(a.drop_first(), b);
        assert(encode_utf8(a + b) =~= encode_utf8(a) + encode_utf8(b));
    }
}

/// One more character adds its UTF-8 width to the encoding of a prefix.
pub proof fn lemma_encode_take_step(s: Seq<char>, k: int)
    requires
        0 <= k < s.len(),
    ensures
        encode_utf8(s.take(k + 1)).len() == encode_utf8(s.take(k)).len() + utf8_width(s[k]),
{
    assert(s.take(k + 1) =~= s.take(k) + seq![s[k]]);
    lemma_encode_utf8_append(s.take(k), seq![s[k]]);
    let one = seq![s[k]];
    assert(one.drop_first() =~= Seq::<char>::empty());
    assert(encode_utf8(one.drop_first()) =~= Seq::<u8>::empty());
    assert(encode_utf8(one) =~= encode_scalar(s[k] as u32));
}

/// A longer prefix has a longer (or equal) UTF-8 encoding.
pub proof fn lemma_encode_take_mono(s: Seq<char>, j: int, k: int)
    requires
        0 <= j <= k <= s.len(),
    ensures
        encode_utf8(s.take(j)).len() <= encode_utf8(s.take(k)).len(),
    decreases k - j,
{
    if j < k {
        lemma_encode_take_step(s, k - 1);
        lemma_encode_take_mono(s, j, k - 1);
    }
}

/// The byte offset at which character `char_idx` of `s` begins; the byte
/// length of `s` when `s` has no such character.
pub open spec fn byte_offset_of_char(s: Seq<char>, char_idx: int) -> int {
    if char_idx < s.len() {
        encode_utf8(s.take(char_idx)).len() as int
    } else {
        encode_utf8(s).len() as int
    }
}

/// The byte offset of character `char_idx` of `line` (the byte length of
/// `line` when the index is past its end).
pub fn byte_index_for_char(line: &str, char_idx: usize) -> (res: usize)
    requires
        encode_utf8(line@).len() <= usize::MAX,
    ensures
        res == byte_offset_of_char(line@, char_idx as int),
{
    let total = line.len();
    let cs = chars_of(line);
    if char_idx >= cs.len() {
        assert(line.spec_bytes() == encode_utf8(line@));
        return total;
    }
    let mut i: usize = 0;
    let mut acc: usize = 0;
    assert(cs@.take(0) =~= Seq::<char>::empty());
    while i < char_idx
        invariant
            cs@ == line@,
            char_idx < cs@.len(),
            i <= char_idx,
            acc == encode_utf8(cs@.take(i as int)).len(),
            encode_utf8(line@).len() <= usize::MAX,
        decreases char_idx - i,
    {
        proof {
            lemma_encode_take_step(cs@, i as int);
            lemma_encode_take_mono(cs@, i + 1, cs@.len() as int);
            assert(cs@.take(cs@.len() as int) =~= cs@);
        }
        let w = char_utf8_len(cs[i]);
        acc = acc + w;
        i += 1;
    }
    acc
}

} // verus!
