//! Character-level text handling: white space, trimming, splitting into
//! lines and fields, and substring search.
//!
//! Every executable function works on a slice of characters and is specified
//! by a function on `Seq<char>`.

use vstd::prelude::*;
use vstd::slice::slice_subrange;

verus! {

/// Copies the characters of a string slice into a vector, in order.
pub fn chars_of(s: &str) -> (v: Vec<char>)
    ensures
        v@ == s@,
{
    let mut v: Vec<char> = Vec::new();
    for c in it: s.chars()
        invariant
            it.seq() == s@,
            v@ == it.seq().take(it.index() as int),
    {
        v.push(c);
    }
    v
}

/// The characters that carry the Unicode property `White_Space`.
pub open spec fn is_whitespace(c: char) -> bool {
    let u = c as u32;
    ||| 0x09 <= u <= 0x0D
    ||| u == 0x20
    ||| u == 0x85
    ||| u == 0xA0
    ||| u == 0x1680
    ||| 0x2000 <= u <= 0x200A
    ||| u == 0x2028
    ||| u == 0x2029
    ||| u == 0x202F
    ||| u == 0x205F
    ||| u == 0x3000
}

/// Tells whether `c` is a white-space character.
pub fn is_space(c: char) -> (b: bool)
    ensures
        b == is_whitespace(c),
{
    let u: u32 = c as u32;
    (0x09 <= u && u <= 0x0D) || u == 0x20 || u == 0x85 || u == 0xA0 || u == 0x1680 || (0x2000 <= u
        && u <= 0x200A) || u == 0x2028 || u == 0x2029 || u == 0x202F || u == 0x205F || u == 0x3000
}

/// `s` without its leading white space.
pub open spec fn trimmed_start(s: Seq<char>) -> Seq<char>
    decreases s.len(),
{
    if s.len() > 0 && is_whitespace(s[0]) {
        trimmed_start(s.skip(1))
    } else {
        s
    }
}

/// `s` without its trailing white space.
pub open spec fn trimmed_end(s: Seq<char>) -> Seq<char>
    decreases s.len(),
{
    if s.len() > 0 && is_whitespace(s.last()) {
        trimmed_end(s.drop_last())
    } else {
        s
    }
}

/// `s` without leading and trailing white space.
pub open spec fn trimmed(s: Seq<char>) -> Seq<char> {
    trimmed_end(trimmed_start(s))
}

/// Where the part of `s` begins and ends that is left when leading and
/// trailing white space is removed.
pub fn trim_bounds(s: &[char]) -> (r: (usize, usize))
    ensures
        r.0 <= r.1 <= s@.len(),
        r.0 == s@.len() - trimmed_start(s@).len(),
        s@.subrange(r.0 as int, r.1 as int) == trimmed(s@),
{
    let n = s.len();
    let mut a: usize = 0;
    assert(s@.skip(0) =~= s@);
    while a < n && is_space(s[a])
        invariant
            a <= n == s@.len(),
            trimmed_start(s@) == trimmed_start(s@.skip(a as int)),
        decreases n - a,
    {
        assert(s@.skip(a as int).skip(1) =~= s@.skip(a + 1));
        a += 1;
    }
    let ghost front = s@.skip(a as int);
    assert(front =~= s@.subrange(a as int, n as int));
    let mut b: usize = n;
    while b > a && is_space(s[b - 1])
        invariant
            a <= b <= n == s@.len(),
            front == s@.subrange(a as int, n as int),
            trimmed_end(front) == trimmed_end(s@.subrange(a as int, b as int)),
        decreases b - a,
    {
        assert(s@.subrange(a as int, b as int).drop_last() =~= s@.subrange(a as int, b - 1));
        b -= 1;
    }
    (a, b)
}

/// The part of `s` that is left when leading and trailing white space is removed.
pub fn trim(s: &[char]) -> (r: &[char])
    ensures
        r@ == trimmed(s@),
{
    let (a, b) = trim_bounds(s);
    slice_subrange(s, a, b)
}

/// Index of the first occurrence of `c` in `s`; `s.len()` where there is none.
pub open spec fn position_of(s: Seq<char>, c: char) -> nat
    decreases s.len(),
{
    if s.len() == 0 || s[0] == c {
        0
    } else {
        1 + position_of(s.skip(1), c)
    }
}

/// `position_of` lies within the sequence, points at `c` where it is inside,
/// and nothing before it is `c`.
pub proof fn lemma_position_of(s: Seq<char>, c: char)
    ensures
        position_of(s, c) <= s.len(),
        position_of(s, c) < s.len() ==> s[position_of(s, c) as int] == c,
        forall|i: int| 0 <= i < position_of(s, c) ==> s[i] != c,
    decreases s.len(),
{
    if s.len() == 0 || s[0] == c {
    } else {
        lemma_position_of(s.skip(1), c);
        let k = position_of(s.skip(1), c);
        assert forall|i: int| 0 <= i < position_of(s, c) implies s[i] != c by {
            if i > 0 {
                assert(s.skip(1)[i - 1] == s[i]);
            }
        }
    }
}

/// Whichever index has `c` for the first time is `position_of`.
pub proof fn lemma_position_of_is(s: Seq<char>, c: char, k: int)
    requires
        0 <= k <= s.len(),
        forall|i: int| 0 <= i < k ==> s[i] != c,
        k < s.len() ==> s[k] == c,
    ensures
        position_of(s, c) == k,
    decreases s.len(),
{
    if s.len() == 0 || s[0] == c {
    } else {
        assert forall|i: int| 0 <= i < k - 1 implies s.skip(1)[i] != c by {
            assert(s.skip(1)[i] == s[i + 1]);
        }
        lemma_position_of_is(s.skip(1), c, k - 1);
    }
}

/// Finds the first occurrence of `c` in `s` at or after `from`; returns
/// `s.len()` where there is none.
pub(crate) fn find_from(s: &[char], from: usize, c: char) -> (k: usize)
    requires
        from <= s@.len(),
    ensures
        from <= k <= s@.len(),
        k == from + position_of(s@.skip(from as int), c),
{
    let n = s.len();
    let mut k: usize = from;
    while k < n && s[k] != c
        invariant
            from <= k <= n == s@.len(),
            forall|i: int| from <= i < k ==> s@[i] != c,
        decreases n - k,
    {
        k += 1;
    }
    proof {
        lemma_position_of_is(s@.skip(from as int), c, k - from);
    }
    k
}

/// The pieces of `s` between occurrences of `sep`. There is always at least
/// one piece; a separator at either end or two in a row give an empty piece.
pub open spec fn split_on(s: Seq<char>, sep: char) -> Seq<Seq<char>>
    decreases s.len(),
{
    let k = position_of(s, sep) as int;
    if k >= s.len() {
        seq![s]
    } else {
        seq![s.take(k)] + split_on(s.skip(k + 1), sep)
    }
}

/// There is always a first piece.
pub proof fn lemma_split_has_a_piece(s: Seq<char>, sep: char)
    ensures
        split_on(s, sep).len() >= 1,
{
}

/// A text without the separator is one piece.
pub proof fn lemma_split_whole(s: Seq<char>, sep: char)
    requires
        forall|i: int| 0 <= i < s.len() ==> s[i] != sep,
    ensures
        split_on(s, sep) == seq![s],
{
    lemma_position_of_is(s, sep, s.len() as int);
}

/// A text that begins with `head`, which is without the separator, and then
/// has the separator, has `head` as its first piece; the other pieces are
/// those of what follows.
pub proof fn lemma_split_head(head: Seq<char>, sep: char, tail: Seq<char>)
    requires
        forall|i: int| 0 <= i < head.len() ==> head[i] != sep,
    ensures
        split_on(head + seq![sep] + tail, sep) == seq![head] + split_on(tail, sep),
{
    let s = head + seq![sep] + tail;
    let k = head.len() as int;
    lemma_position_of_is(s, sep, k);
    assert(s.take(k) =~= head);
    assert(s.skip(k + 1) =~= tail);
}

/// The views of a vector of slices, piece by piece.
pub open spec fn pieces<'a>(parts: Seq<&'a [char]>) -> Seq<Seq<char>> {
    Seq::new(parts.len(), |i: int| parts[i]@)
}

/// Splits `s` at every occurrence of `sep`.
pub fn split<'a>(s: &'a [char], sep: char) -> (parts: Vec<&'a [char]>)
    ensures
        pieces(parts@) == split_on(s@, sep),
{
    let n = s.len();
    let mut parts: Vec<&'a [char]> = Vec::new();
    let mut pos: usize = 0;
    assert(s@.skip(0) =~= s@);
    assert(pieces(parts@) + split_on(s@, sep) =~= split_on(s@, sep));
    loop
        invariant
            pos <= n == s@.len(),
            split_on(s@, sep) == pieces(parts@) + split_on(s@.skip(pos as int), sep),
        decreases n - pos,
    {
        let k = find_from(s, pos, sep);
        let ghost rest = s@.skip(pos as int);
        let ghost before = pieces(parts@);
        parts.push(slice_subrange(s, pos, k));
        assert(s@.subrange(pos as int, k as int) =~= rest.take(k - pos));
        assert(pieces(parts@) =~= before + seq![rest.take(k - pos)]);
        if k >= n {
            assert(rest.take(k - pos) =~= rest);
            assert(split_on(rest, sep) =~= seq![rest]);
            return parts;
        }
        assert(rest.skip(k - pos + 1) =~= s@.skip(k + 1));
        pos = k + 1;
    }
}

/// `s` without one trailing carriage return, if it has one.
pub open spec fn strip_cr(s: Seq<char>) -> Seq<char> {
    if s.len() > 0 && s.last() == '\r' {
        s.drop_last()
    } else {
        s
    }
}

/// The lines of `text`. A line ends at a line feed; the line feed, and a
/// carriage return directly before it, are not part of the line. What
/// follows the last line feed is a line of its own unless it is empty.
pub open spec fn lines_of(text: Seq<char>) -> Seq<Seq<char>>
    decreases text.len(),
{
    if text.len() == 0 {
        Seq::empty()
    } else {
        let k = position_of(text, '\n') as int;
        if k >= text.len() {
            seq![text]
        } else {
            seq![strip_cr(text.take(k))] + lines_of(text.skip(k + 1))
        }
    }
}

/// The lines of a text that continues one which is empty or ends in a line
/// feed are the lines of the one, then those of the other.
pub proof fn lemma_lines_of_concat(head: Seq<char>, rest: Seq<char>)
    requires
        head.len() == 0 || head.last() == '\n',
    ensures
        lines_of(head + rest) == lines_of(head) + lines_of(rest),
    decreases head.len(),
{
    if head.len() == 0 {
        assert(head + rest =~= rest);
        assert(lines_of(head) + lines_of(rest) =~= lines_of(rest));
    } else {
        lemma_position_of(head, '\n');
        let k = position_of(head, '\n') as int;
        assert(k < head.len()) by {
            if k >= head.len() {
                assert(head[head.len() - 1] != '\n');
            }
        }
        let whole = head + rest;
        lemma_position_of_is(whole, '\n', k);
        assert(whole.take(k) =~= head.take(k));
        assert(whole.skip(k + 1) =~= head.skip(k + 1) + rest);
        lemma_lines_of_concat(head.skip(k + 1), rest);
        assert(lines_of(whole) =~= lines_of(head) + lines_of(rest));
    }
}

/// A text without a line feed, followed by a line feed and more text, has
/// itself as its first line, less a carriage return at its end.
pub proof fn lemma_lines_of_first(line: Seq<char>, rest: Seq<char>)
    requires
        forall|i: int| 0 <= i < line.len() ==> line[i] != '\n',
    ensures
        lines_of(line + seq!['\n'] + rest) == seq![strip_cr(line)] + lines_of(rest),
        line.len() > 0 ==> lines_of(line) == seq![line],
{
    let whole = line + seq!['\n'] + rest;
    let k = line.len() as int;
    lemma_position_of_is(whole, '\n', k);
    assert(whole.take(k) =~= line);
    assert(whole.skip(k + 1) =~= rest);
    lemma_position_of_is(line, '\n', k);
}

/// Splits `text` into its lines.
pub fn lines<'a>(text: &'a [char]) -> (out: Vec<&'a [char]>)
    ensures
        pieces(out@) == lines_of(text@),
{
    let n = text.len();
    let mut out: Vec<&'a [char]> = Vec::new();
    let mut pos: usize = 0;
    assert(text@.skip(0) =~= text@);
    assert(pieces(out@) + lines_of(text@) =~= lines_of(text@));
    while pos < n
        invariant
            pos <= n == text@.len(),
            lines_of(text@) == pieces(out@) + lines_of(text@.skip(pos as int)),
        decreases n - pos,
    {
        let k = find_from(text, pos, '\n');
        let ghost rest = text@.skip(pos as int);
        let ghost before = pieces(out@);
        assert(text@.subrange(pos as int, k as int) =~= rest.take(k - pos));
        if k >= n {
            out.push(slice_subrange(text, pos, n));
            assert(rest.take(k - pos) =~= rest);
            assert(pieces(out@) =~= before + seq![rest]);
            assert(lines_of(text@.skip(n as int)) =~= Seq::<Seq<char>>::empty());
            pos = n;
        } else {
            let end = if k > pos && text[k - 1] == '\r' {
                k - 1
            } else {
                k
            };
            out.push(slice_subrange(text, pos, end));
            assert(text@.subrange(pos as int, end as int) =~= strip_cr(rest.take(k - pos)));
            assert(pieces(out@) =~= before + seq![strip_cr(rest.take(k - pos))]);
            assert(rest.skip(k - pos + 1) =~= text@.skip(k + 1));
            pos = k + 1;
        }
    }
    assert(lines_of(text@.skip(pos as int)) =~= Seq::<Seq<char>>::empty());
    out
}

/// Tells whether two slices hold the same characters.
pub fn same_chars(a: &[char], b: &[char]) -> (r: bool)
    ensures
        r == (a@ == b@),
{
    let n = a.len();
    if n != b.len() {
        return false;
    }
    let mut i: usize = 0;
    while i < n
        invariant
            i <= n == a@.len() == b@.len(),
            forall|j: int| 0 <= j < i ==> a@[j] == b@[j],
        decreases n - i,
    {
        if a[i] != b[i] {
            return false;
        }
        i += 1;
    }
    assert(a@ =~= b@);
    true
}

/// Tells whether `needle` occurs in `hay` as a run of consecutive characters.
pub open spec fn occurs_in(needle: Seq<char>, hay: Seq<char>) -> bool {
    exists|i: int| occurs_at(needle, hay, i)
}

/// Tells whether `needle` stands in `hay` at index `i`.
pub open spec fn occurs_at(needle: Seq<char>, hay: Seq<char>, i: int) -> bool {
    0 <= i && i + needle.len() <= hay.len() && hay.subrange(i, i + needle.len()) == needle
}

/// Tells whether `needle` stands in `hay` at index `i`.
pub(crate) fn matches_at(needle: &[char], hay: &[char], i: usize) -> (b: bool)
    requires
        i + needle@.len() <= hay@.len(),
    ensures
        b == occurs_at(needle@, hay@, i as int),
{
    let m = needle.len();
    let n = hay.len();
    let mut j: usize = 0;
    while j < m
        invariant
            j <= m == needle@.len(),
            i + m <= n == hay@.len(),
            forall|t: int| 0 <= t < j ==> hay@[i + t] == needle@[t],
        decreases m - j,
    {
        if hay[i + j] != needle[j] {
            assert(hay@.subrange(i as int, i + m)[j as int] != needle@[j as int]);
            return false;
        }
        j += 1;
    }
    assert(hay@.subrange(i as int, i + m) =~= needle@);
    true
}

/// Tells whether `needle` occurs in `hay`.
pub fn contains(hay: &[char], needle: &[char]) -> (b: bool)
    ensures
        b == occurs_in(needle@, hay@),
{
    let n = hay.len();
    let m = needle.len();
    if m > n {
        return false;
    }
    let last = n - m;
    let mut i: usize = 0;
    loop
        invariant
            n == hay@.len(),
            m == needle@.len(),
            i <= last == n - m,
            forall|t: int| 0 <= t < i ==> !occurs_at(needle@, hay@, t),
        decreases last - i,
    {
        if matches_at(needle, hay, i) {
            return true;
        }
        if i == last {
            return false;
        }
        i += 1;
    }
}

} // verus!
