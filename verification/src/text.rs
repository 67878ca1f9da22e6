//! Character-level text utilities behind the textual wire formats.
//!
//! Every packet of the control plane is a short piece of text. The functions
//! here cut such text into fields and lines and trim it. Each executable
//! function is specified by a spec function over `Seq<char>`.

use vstd::prelude::*;
use vstd::utf8::{decode_utf8, valid_utf8};

verus! {

/// `String::push` appends one character to the end of the string.
pub assume_specification[ String::push ](s: &mut String, c: char)
    ensures
        final(s)@ == old(s)@.push(c),
;

/// `String::from_utf8` accepts exactly the byte sequences that are valid
/// UTF-8 and returns the text that they encode.
#[verifier::external_body]
pub(crate) fn string_from_utf8(bytes: Vec<u8>) -> (r: Option<String>)
    ensures
        r is Some <==> valid_utf8(bytes@),
        r matches Some(s) ==> s@ == decode_utf8(bytes@),
{
    String::from_utf8(bytes).ok()
}

/// The characters of a string slice, in order.
pub fn chars_of(s: &str) -> (v: Vec<char>)
    ensures
        v@ == s@,
{
    let mut v: Vec<char> = Vec::new();
    for c in it: s.chars()
        invariant
            it.seq() == s@,
            v@ == s@.take(it.index() as int),
    {
        v.push(c);
    }
    proof {
        assert(s@.take(s@.len() as int) == s@);
    }
    v
}

/// A string holding exactly the given characters.
pub fn string_of(v: &[char]) -> (s: String)
    ensures
        s@ == v@,
{
    let mut s = String::new();
    let mut i: usize = 0;
    while i < v.len()
        invariant
            i <= v.len(),
            s@ == v@.take(i as int),
        decreases v.len() - i,
    {
        s.push(v[i]);
        i += 1;
    }
    proof {
        assert(v@.take(v@.len() as int) == v@);
    }
    s
}

/// A copy of the characters `s[from..to]`.
pub fn copy_range(s: &[char], from: usize, to: usize) -> (v: Vec<char>)
    requires
        from <= to <= s.len(),
    ensures
        v@ == s@.subrange(from as int, to as int),
{
    let mut v: Vec<char> = Vec::new();
    let mut i: usize = from;
    while i < to
        invariant
            from <= i <= to <= s.len(),
            v@ == s@.subrange(from as int, i as int),
        decreases to - i,
    {
        v.push(s[i]);
        i += 1;
    }
    v
}

/// Whether two character slices hold the same text.
pub fn same_chars(a: &[char], b: &[char]) -> (r: bool)
    ensures
        r == (a@ == b@),
{
    if a.len() != b.len() {
        return false;
    }
    let mut i: usize = 0;
    while i < a.len()
        invariant
            i <= a.len(),
            a.len() == b.len(),
            forall|j: int| 0 <= j < i ==> a@[j] == b@[j],
        decreases a.len() - i,
    {
        if a[i] != b[i] {
            return false;
        }
        i += 1;
    }
    proof {
        assert(a@ =~= b@);
    }
    true
}

/// Whether `s` begins with `p`.
pub fn has_prefix(s: &[char], p: &[char]) -> (r: bool)
    ensures
        r == p@.is_prefix_of(s@),
{
    if p.len() > s.len() {
        return false;
    }
    let mut i: usize = 0;
    while i < p.len()
        invariant
            i <= p.len() <= s.len(),
            forall|j: int| 0 <= j < i ==> s@[j] == p@[j],
        decreases p.len() - i,
    {
        if s[i] != p[i] {
            proof {
                assert(s@.subrange(0, p@.len() as int)[i as int] == s@[i as int]);
            }
            return false;
        }
        i += 1;
    }
    proof {
        assert(p@ =~= s@.subrange(0, p@.len() as int));
    }
    true
}

/// Position of the first `c` in `s`, or `s.len()` where `c` does not occur.
pub open spec fn first_index(s: Seq<char>, c: char) -> int
    decreases s.len(),
{
    if s.len() == 0 {
        0
    } else if s[0] == c {
        0
    } else {
        1 + first_index(s.skip(1), c)
    }
}

/// `first_index` lies within the text, points at `c` unless it is the
/// length, and no `c` stands before it.
pub proof fn lemma_first_index(s: Seq<char>, c: char)
    ensures
        0 <= first_index(s, c) <= s.len(),
        first_index(s, c) < s.len() ==> s[first_index(s, c)] == c,
        forall|j: int| 0 <= j < first_index(s, c) ==> s[j] != c,
    decreases s.len(),
{
    if s.len() > 0 && s[0] != c {
        lemma_first_index(s.skip(1), c);
        let r = first_index(s.skip(1), c);
        assert forall|j: int| 0 <= j < 1 + r implies s[j] != c by {
            if j > 0 {
                assert(s.skip(1)[j - 1] == s[j]);
            }
        }
    }
}

/// Any position with the three properties of `lemma_first_index` is
/// `first_index`.
pub proof fn lemma_first_index_unique(s: Seq<char>, c: char, i: int)
    requires
        0 <= i <= s.len(),
        i < s.len() ==> s[i] == c,
        forall|j: int| 0 <= j < i ==> s[j] != c,
    ensures
        first_index(s, c) == i,
{
    lemma_first_index(s, c);
}

/// Position of the first `c` at or after `from`, or `s.len()`.
pub fn find_char(s: &[char], from: usize, c: char) -> (i: usize)
    requires
        from <= s.len(),
    ensures
        from <= i <= s.len(),
        i == from + first_index(s@.skip(from as int), c),
{
    let mut i: usize = from;
    while i < s.len() && s[i] != c
        invariant
            from <= i <= s.len(),
            forall|j: int| from <= j < i ==> s@[j] != c,
        decreases s.len() - i,
    {
        i += 1;
    }
    proof {
        lemma_first_index_unique(s@.skip(from as int), c, i - from);
    }
    i
}

/// The pieces of `s` between occurrences of `sep`. There is always at
/// least one piece; a separator at either end gives an empty piece there.
pub open spec fn split(s: Seq<char>, sep: char) -> Seq<Seq<char>>
    decreases s.len(),
{
    let i = first_index(s, sep);
    if 0 <= i < s.len() {
        seq![s.take(i)] + split(s.skip(i + 1), sep)
    } else {
        seq![s]
    }
}

/// The views of a vector of character vectors.
pub open spec fn views(parts: Seq<Vec<char>>) -> Seq<Seq<char>> {
    Seq::new(parts.len(), |i: int| parts[i]@)
}

/// `split` yields at least one piece, and no piece holds the separator.
pub proof fn lemma_split(s: Seq<char>, sep: char)
    ensures
        split(s, sep).len() >= 1,
        forall|k: int, j: int|
            0 <= k < split(s, sep).len() && 0 <= j < split(s, sep)[k].len() ==> split(
                s,
                sep,
            )[k][j] != sep,
    decreases s.len(),
{
    lemma_first_index(s, sep);
    let i = first_index(s, sep);
    if 0 <= i < s.len() {
        lemma_split(s.skip(i + 1), sep);
        let rest = split(s.skip(i + 1), sep);
        assert forall|k: int, j: int|
            0 <= k < split(s, sep).len() && 0 <= j < split(s, sep)[k].len() implies split(
            s,
            sep,
        )[k][j] != sep by {
            if k == 0 {
                assert(split(s, sep)[0] == s.take(i));
            } else {
                assert(split(s, sep)[k] == rest[k - 1]);
            }
        }
    }
}

/// Text without a separator is a single piece.
pub proof fn lemma_split_single(s: Seq<char>, sep: char)
    requires
        forall|j: int| 0 <= j < s.len() ==> s[j] != sep,
    ensures
        split(s, sep) == seq![s],
{
    lemma_first_index_unique(s, sep, s.len() as int);
}

/// Splitting `a`, a separator and `b`, where `a` holds no separator, gives
/// `a` followed by the pieces of `b`.
pub proof fn lemma_split_cons(a: Seq<char>, sep: char, b: Seq<char>)
    requires
        forall|j: int| 0 <= j < a.len() ==> a[j] != sep,
    ensures
        split(a + seq![sep] + b, sep) == seq![a] + split(b, sep),
{
    let s = a + seq![sep] + b;
    lemma_first_index_unique(s, sep, a.len() as int);
    assert(s.take(a.len() as int) == a);
    assert(s.skip(a.len() as int + 1) == b);
}

/// Cuts `s` at every `sep`.
pub fn split_chars(s: &[char], sep: char) -> (parts: Vec<Vec<char>>)
    ensures
        views(parts@) == split(s@, sep),
        parts.len() >= 1,
{
    let mut parts: Vec<Vec<char>> = Vec::new();
    let mut start: usize = 0;
    proof {
        assert(s@.skip(0) == s@);
        assert(views(parts@) + split(s@, sep) == split(s@, sep));
    }
    loop
        invariant_except_break
            start <= s.len(),
            split(s@, sep) == views(parts@) + split(s@.skip(start as int), sep),
        ensures
            views(parts@) == split(s@, sep),
            parts.len() >= 1,
        decreases s.len() - start,
    {
        let end = find_char(s, start, sep);
        let piece = copy_range(s, start, end);
        let ghost before = parts@;
        let ghost tail = s@.skip(start as int);
        parts.push(piece);
        proof {
            assert(views(parts@) == views(before) + seq![piece@]);
            assert(tail.take(end - start) == piece@);
        }
        if end >= s.len() {
            proof {
                assert(tail == piece@);
            }
            break;
        }
        proof {
            assert(tail.skip(end - start + 1) == s@.skip(end + 1));
        }
        start = end + 1;
    }
    parts
}

/// `s` without one trailing carriage return, where it has one.
pub open spec fn strip_cr(s: Seq<char>) -> Seq<char> {
    if s.len() > 0 && s.last() == '\r' {
        s.drop_last()
    } else {
        s
    }
}

/// The lines of `s`. A line ends at a line feed; a carriage return just
/// before that line feed belongs to the line ending. What follows the last
/// line feed is a line of its own unless it is empty.
pub open spec fn lines(s: Seq<char>) -> Seq<Seq<char>> {
    let parts = split(s, '\n');
    let ended = Seq::new((parts.len() - 1) as nat, |k: int| strip_cr(parts[k]));
    if parts.last().len() == 0 {
        ended
    } else {
        ended.push(parts.last())
    }
}

/// The first line of `s`: what stands before the first line feed, without
/// a carriage return just before it, or all of `s` where it has no line
/// feed.
pub open spec fn first_line(s: Seq<char>) -> Seq<char> {
    let i = first_index(s, '\n');
    if 0 <= i < s.len() {
        strip_cr(s.take(i))
    } else {
        s
    }
}

/// The first line is the first of the lines, and empty where there is none.
pub proof fn lemma_first_line(s: Seq<char>)
    ensures
        lines(s).len() > 0 ==> first_line(s) == lines(s)[0],
        lines(s).len() == 0 ==> first_line(s) == Seq::<char>::empty(),
{
    lemma_first_index(s, '\n');
    let i = first_index(s, '\n');
    if 0 <= i < s.len() {
        lemma_split(s.skip(i + 1), '\n');
        let parts = split(s, '\n');
        assert(parts[0] == s.take(i));
    } else {
        assert(split(s, '\n') == seq![s]);
    }
}

/// A text is free of `c` where `c` stands at none of its positions.
pub open spec fn has_no(s: Seq<char>, c: char) -> bool {
    forall|i: int| 0 <= i < s.len() ==> s[i] != c
}

/// The lines of a first line, a line feed and a last line that is not
/// empty.
pub proof fn lemma_lines_two(a: Seq<char>, b: Seq<char>)
    requires
        has_no(a, '\n'),
        has_no(b, '\n'),
        b.len() > 0,
    ensures
        lines(a + seq!['\n'] + b) == seq![strip_cr(a), b],
{
    lemma_split_single(b, '\n');
    lemma_split_cons(a, '\n', b);
    let parts = split(a + seq!['\n'] + b, '\n');
    assert(parts =~= seq![a, b]);
    assert(lines(a + seq!['\n'] + b) =~= seq![strip_cr(a), b]);
}

/// The lines of two lines, each closed by a line feed, and what follows
/// them on a third line.
pub proof fn lemma_lines_three(a: Seq<char>, b: Seq<char>, c: Seq<char>)
    requires
        has_no(a, '\n'),
        has_no(b, '\n'),
        has_no(c, '\n'),
    ensures
        lines(a + seq!['\n'] + b + seq!['\n'] + c) == (if c.len() > 0 {
            seq![strip_cr(a), strip_cr(b), c]
        } else {
            seq![strip_cr(a), strip_cr(b)]
        }),
        first_line(a + seq!['\n'] + b + seq!['\n'] + c) == strip_cr(a),
{
    let text = a + seq!['\n'] + b + seq!['\n'] + c;
    lemma_split_single(c, '\n');
    lemma_split_cons(b, '\n', c);
    lemma_split_cons(a, '\n', b + seq!['\n'] + c);
    assert(text =~= a + seq!['\n'] + (b + seq!['\n'] + c));
    let parts = split(text, '\n');
    assert(parts =~= seq![a, b, c]);
    if c.len() > 0 {
        assert(lines(text) =~= seq![strip_cr(a), strip_cr(b), c]);
    } else {
        assert(lines(text) =~= seq![strip_cr(a), strip_cr(b)]);
    }
    lemma_first_index_unique(text, '\n', a.len() as int);
    assert(text.take(a.len() as int) =~= a);
}

/// Cuts `s` into its lines.
pub fn lines_of(s: &[char]) -> (out: Vec<Vec<char>>)
    ensures
        views(out@) == lines(s@),
{
    let parts = split_chars(s, '\n');
    let n: usize = parts.len() - 1;
    let ghost pieces = split(s@, '\n');
    let mut out: Vec<Vec<char>> = Vec::new();
    let mut i: usize = 0;
    while i < n
        invariant
            i <= n,
            n == parts.len() - 1,
            views(parts@) == pieces,
            out.len() == i,
            views(out@) == Seq::new(i as nat, |k: int| strip_cr(pieces[k])),
        decreases n - i,
    {
        let piece = &parts[i];
        let len: usize = piece.len();
        let end: usize = if len > 0 && piece[len - 1] == '\r' {
            len - 1
        } else {
            len
        };
        let line = copy_range(piece.as_slice(), 0, end);
        proof {
            assert(pieces[i as int] == parts@[i as int]@);
            assert(line@ == strip_cr(pieces[i as int]));
        }
        let ghost before = out@;
        out.push(line);
        proof {
            let target = Seq::new((i + 1) as nat, |k: int| strip_cr(pieces[k]));
            assert forall|k: int| 0 <= k < target.len() implies views(out@)[k] == target[k] by {
                if k < i {
                    assert(views(before)[k] == before[k]@);
                }
            }
            assert(views(out@) =~= target);
        }
        i += 1;
    }
    let last = &parts[n];
    proof {
        assert(pieces[n as int] == parts@[n as int]@);
        assert(pieces.last() == last@);
    }
    if last.len() > 0 {
        let line = copy_range(last.as_slice(), 0, last.len());
        let ghost before = out@;
        out.push(line);
        proof {
            assert(line@ == last@);
            assert forall|k: int| 0 <= k < before.len() implies views(out@)[k] == views(before)[k] by {
                assert(out@[k] == before[k]);
            }
            assert(views(out@) =~= views(before).push(last@));
        }
    }
    out
}

/// The first line of `s`.
pub fn first_line_of(s: &[char]) -> (line: Vec<char>)
    ensures
        line@ == first_line(s@),
{
    proof {
        assert(s@.skip(0) == s@);
    }
    let i = find_char(s, 0, '\n');
    if i < s.len() {
        let end: usize = if i > 0 && s[i - 1] == '\r' {
            i - 1
        } else {
            i
        };
        proof {
            if i > 0 {
                assert(s@.take(i as int).drop_last() == s@.subrange(0, i - 1));
            }
        }
        copy_range(s, 0, end)
    } else {
        proof {
            assert(s@.subrange(0, s@.len() as int) == s@);
        }
        copy_range(s, 0, s.len())
    }
}

/// A character with the Unicode property `White_Space`.
pub open spec fn is_space(c: char) -> bool {
    let n = c as int;
    ||| 0x09 <= n <= 0x0d
    ||| n == 0x20
    ||| n == 0x85
    ||| n == 0xa0
    ||| n == 0x1680
    ||| 0x2000 <= n <= 0x200a
    ||| n == 0x2028
    ||| n == 0x2029
    ||| n == 0x202f
    ||| n == 0x205f
    ||| n == 0x3000
}

/// `s` without its leading white space.
pub open spec fn trim_start(s: Seq<char>) -> Seq<char>
    decreases s.len(),
{
    if s.len() > 0 && is_space(s[0]) {
        trim_start(s.skip(1))
    } else {
        s
    }
}

/// `s` without its trailing white space.
pub open spec fn trim_end(s: Seq<char>) -> Seq<char>
    decreases s.len(),
{
    if s.len() > 0 && is_space(s.last()) {
        trim_end(s.drop_last())
    } else {
        s
    }
}

/// `s` without white space at either end.
pub open spec fn trim(s: Seq<char>) -> Seq<char> {
    trim_end(trim_start(s))
}

/// Whether `c` is white space.
pub fn is_space_char(c: char) -> (r: bool)
    ensures
        r == is_space(c),
{
    (c >= '\u{09}' && c <= '\u{0d}') || c == ' ' || c == '\u{85}' || c == '\u{a0}' || c
        == '\u{1680}' || (c >= '\u{2000}' && c <= '\u{200a}') || c == '\u{2028}' || c
        == '\u{2029}' || c == '\u{202f}' || c == '\u{205f}' || c == '\u{3000}'
}

/// `s` without white space at either end.
pub fn trim_chars(s: &[char]) -> (v: Vec<char>)
    ensures
        v@ == trim(s@),
{
    let mut start: usize = 0;
    proof {
        assert(s@.skip(0) == s@);
    }
    while start < s.len() && is_space_char(s[start])
        invariant
            start <= s.len(),
            trim_start(s@) == trim_start(s@.skip(start as int)),
        decreases s.len() - start,
    {
        proof {
            assert(s@.skip(start as int).skip(1) == s@.skip(start + 1));
        }
        start += 1;
    }
    let ghost body = s@.skip(start as int);
    let mut end: usize = s.len();
    proof {
        assert(trim_start(s@) == body);
        assert(s@.subrange(start as int, end as int) == body);
    }
    while end > start && is_space_char(s[end - 1])
        invariant
            start <= end <= s.len(),
            trim_end(body) == trim_end(s@.subrange(start as int, end as int)),
        decreases end - start,
    {
        proof {
            assert(s@.subrange(start as int, end as int).drop_last() == s@.subrange(
                start as int,
                end - 1,
            ));
        }
        end -= 1;
    }
    copy_range(s, start, end)
}

} // verus!
