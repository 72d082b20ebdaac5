//! Character-level text operations, specified over `Seq<char>`.
//!
//! Every function here works on a slice of characters and says what it
//! computes through a spec function of the same text, so that callers can
//! reason about lines, prefixes and trimmed fields without looking at loops.

use vstd::prelude::*;
use vstd::slice::*;
use vstd::std_specs::iter::IteratorSpec;
use vstd::string::*;

verus! {

/// Index of the first `c` in `s`, or `s.len()` where `s` holds none.
pub open spec fn find(s: Seq<char>, c: char) -> int
    decreases s.len(),
{
    if s.len() == 0 || s[0] == c {
        0
    } else {
        1 + find(s.skip(1), c)
    }
}

/// Whether `c` is whitespace: one of the 25 characters that have the
/// Unicode property `White_Space`.
pub open spec fn whitespace(c: char) -> bool {
    ||| ('\u{9}' <= c && c <= '\u{d}')
    ||| c == ' '
    ||| c == '\u{85}'
    ||| c == '\u{a0}'
    ||| c == '\u{1680}'
    ||| ('\u{2000}' <= c && c <= '\u{200a}')
    ||| c == '\u{2028}'
    ||| c == '\u{2029}'
    ||| c == '\u{202f}'
    ||| c == '\u{205f}'
    ||| c == '\u{3000}'
}

/// `s` without its leading whitespace.
pub open spec fn trim_start(s: Seq<char>) -> Seq<char>
    decreases s.len(),
{
    if s.len() > 0 && whitespace(s[0]) {
        trim_start(s.skip(1))
    } else {
        s
    }
}

/// `s` without its trailing whitespace.
pub open spec fn trim_end(s: Seq<char>) -> Seq<char>
    decreases s.len(),
{
    if s.len() > 0 && whitespace(s.last()) {
        trim_end(s.drop_last())
    } else {
        s
    }
}

/// `s` without leading and trailing whitespace.
pub open spec fn trimmed(s: Seq<char>) -> Seq<char> {
    trim_end(trim_start(s))
}

/// `s` without one trailing carriage return, if it has one.
pub open spec fn strip_cr(s: Seq<char>) -> Seq<char> {
    if s.len() > 0 && s.last() == '\r' {
        s.drop_last()
    } else {
        s
    }
}

/// The lines of `s`. A line ends at a line feed; the line feed, and a
/// carriage return directly before it, belong to no line. Text after the
/// last line feed is a line of its own unless it is empty.
pub open spec fn lines_of(s: Seq<char>) -> Seq<Seq<char>>
    decreases s.len(),
{
    if s.len() == 0 {
        Seq::empty()
    } else {
        let k = find(s, '\n');
        if 0 <= k < s.len() {
            seq![strip_cr(s.take(k))] + lines_of(s.skip(k + 1))
        } else {
            seq![s]
        }
    }
}

/// The pieces of `s`, which is cut after each line feed: a piece is a line
/// together with what ends it. Text after the last line feed is a piece of
/// its own unless it is empty.
pub open spec fn pieces_of(s: Seq<char>) -> Seq<Seq<char>>
    decreases s.len(),
{
    if s.len() == 0 {
        Seq::empty()
    } else {
        let k = find(s, '\n');
        if 0 <= k < s.len() {
            seq![s.take(k + 1)] + pieces_of(s.skip(k + 1))
        } else {
            seq![s]
        }
    }
}

/// The line that `piece` holds: the piece without the line feed that ends
/// it and without a carriage return directly before that line feed.
pub open spec fn line_of(piece: Seq<char>) -> Seq<char> {
    if piece.len() > 0 && piece.last() == '\n' {
        strip_cr(piece.drop_last())
    } else {
        piece
    }
}

/// Whether `piece` can be a piece of a text: it is not empty and holds no
/// line feed but at its end.
pub open spec fn is_piece(piece: Seq<char>) -> bool {
    piece.len() > 0 && forall|j: int| 0 <= j < piece.len() - 1 ==> piece[j] != '\n'
}

/// Whether `pieces` can be the pieces of a text: each is a piece, and each
/// but the last ends in a line feed.
pub open spec fn is_cut(pieces: Seq<Seq<char>>) -> bool {
    forall|i: int|
        0 <= i < pieces.len() ==> is_piece(#[trigger] pieces[i]) && (i < pieces.len() - 1
            ==> pieces[i].last() == '\n')
}

/// Whether `r` holds the bounds of the lines of `s`, in order: entry `i` is
/// `(a, b, c)` with `s[a..b]` the `i`-th line and `s[a..c]` the `i`-th
/// piece, so that `c` is where the next line starts.
pub open spec fn bounds_lines(r: Seq<(usize, usize, usize)>, s: Seq<char>) -> bool {
    &&& r.len() == lines_of(s).len()
    &&& r.len() == pieces_of(s).len()
    &&& forall|i: int|
        #![trigger r[i]]
        0 <= i < r.len() ==> {
            &&& r[i].0 <= r[i].1 <= r[i].2 <= s.len()
            &&& lines_of(s)[i] == s.subrange(r[i].0 as int, r[i].1 as int)
            &&& pieces_of(s)[i] == s.subrange(r[i].0 as int, r[i].2 as int)
        }
}

/// Whether `needle` stands in `hay` at index `i`.
pub open spec fn occurs_at(hay: Seq<char>, needle: Seq<char>, i: int) -> bool {
    0 <= i && i + needle.len() <= hay.len() && hay.subrange(i, i + needle.len()) == needle
}

/// Whether `needle` stands somewhere in `hay`.
pub open spec fn occurs_in(hay: Seq<char>, needle: Seq<char>) -> bool {
    exists|i: int| occurs_at(hay, needle, i)
}

/// `s` with every occurrence of `from` replaced by `to`, occurrences taken
/// from left to right without overlap. An empty `from` occurs nowhere.
pub open spec fn replaced(s: Seq<char>, from: Seq<char>, to: Seq<char>) -> Seq<char>
    decreases s.len(),
{
    if s.len() == 0 || from.len() == 0 {
        s
    } else if from.is_prefix_of(s) {
        to + replaced(s.skip(from.len() as int), from, to)
    } else {
        seq![s[0]] + replaced(s.skip(1), from, to)
    }
}

/// `find` returns an index in range, nothing before it is `c`, and `c`
/// stands at it unless it is the length.
pub proof fn lemma_find(s: Seq<char>, c: char)
    ensures
        0 <= find(s, c) <= s.len(),
        forall|j: int| 0 <= j < find(s, c) ==> s[j] != c,
        find(s, c) < s.len() ==> s[find(s, c)] == c,
    decreases s.len(),
{
    if s.len() == 0 || s[0] == c {
    } else {
        let t = s.skip(1);
        lemma_find(t, c);
        assert forall|j: int| 0 <= j < find(s, c) implies s[j] != c by {
            if j > 0 {
                assert(s[j] == t[j - 1]);
            }
        }
        assert(find(t, c) < t.len() ==> t[find(t, c)] == s[find(s, c)]);
    }
}

/// An index with the properties of `lemma_find` is what `find` returns.
pub proof fn lemma_find_is(s: Seq<char>, c: char, k: int)
    requires
        0 <= k <= s.len(),
        forall|j: int| 0 <= j < k ==> s[j] != c,
        k < s.len() ==> s[k] == c,
    ensures
        find(s, c) == k,
{
    lemma_find(s, c);
    let f = find(s, c);
    if f < k {
        assert(s[f] == c);
    } else if k < f {
        assert(s[k] == c);
    }
}

/// No line holds a line feed.
pub proof fn lemma_lines_hold_no_line_feed(s: Seq<char>)
    ensures
        forall|i: int, j: int|
            0 <= i < lines_of(s).len() && 0 <= j < lines_of(s)[i].len() ==> #[trigger] lines_of(
                s,
            )[i][j] != '\n',
    decreases s.len(),
{
    if s.len() > 0 {
        lemma_find(s, '\n');
        let k = find(s, '\n');
        if k < s.len() {
            let head = strip_cr(s.take(k));
            let rest = lines_of(s.skip(k + 1));
            lemma_lines_hold_no_line_feed(s.skip(k + 1));
            assert forall|i: int, j: int|
                0 <= i < lines_of(s).len() && 0 <= j < lines_of(s)[i].len() implies #[trigger] lines_of(
                s,
            )[i][j] != '\n' by {
                if i == 0 {
                    assert(head[j] == s[j]);
                } else {
                    assert(lines_of(s)[i] == rest[i - 1]);
                }
            }
        }
    }
}

/// The lines of a text that follows complete lines are the lines of both.
pub proof fn lemma_lines_concat(a: Seq<char>, b: Seq<char>)
    requires
        a.len() == 0 || a.last() == '\n',
    ensures
        lines_of(a + b) == lines_of(a) + lines_of(b),
    decreases a.len(),
{
    if a.len() == 0 {
        assert(a + b =~= b);
        assert(lines_of(a) + lines_of(b) =~= lines_of(b));
    } else {
        lemma_find(a, '\n');
        let k = find(a, '\n');
        assert(k < a.len()) by {
            if k == a.len() {
                assert(a[a.len() - 1] != '\n');
            }
        }
        lemma_find_is(a + b, '\n', k);
        let rest = a.skip(k + 1);
        assert((a + b).take(k) =~= a.take(k));
        assert((a + b).skip(k + 1) =~= rest + b);
        assert(rest.len() > 0 ==> rest.last() == a.last());
        lemma_lines_concat(rest, b);
        assert(seq![strip_cr(a.take(k))] + (lines_of(rest) + lines_of(b)) =~= (seq![
            strip_cr(a.take(k)),
        ] + lines_of(rest)) + lines_of(b));
    }
}

/// A text without line feed, followed by one, is one line.
pub proof fn lemma_lines_of_one_line(line: Seq<char>)
    requires
        forall|j: int| 0 <= j < line.len() ==> line[j] != '\n',
    ensures
        lines_of(line.push('\n')) == seq![strip_cr(line)],
{
    let s = line.push('\n');
    lemma_find_is(s, '\n', line.len() as int);
    assert(s.take(line.len() as int) =~= line);
    assert(s.skip(line.len() as int + 1) =~= Seq::<char>::empty());
    assert(seq![strip_cr(line)] + lines_of(Seq::<char>::empty()) =~= seq![strip_cr(line)]);
}

/// The lines of a text are the lines that its pieces hold.
pub proof fn lemma_lines_of_pieces(s: Seq<char>)
    ensures
        lines_of(s) == pieces_of(s).map_values(|p: Seq<char>| line_of(p)),
    decreases s.len(),
{
    let line = |p: Seq<char>| line_of(p);
    if s.len() == 0 {
        assert(lines_of(s) =~= pieces_of(s).map_values(line));
    } else {
        lemma_find(s, '\n');
        let k = find(s, '\n');
        if k < s.len() {
            let piece = s.take(k + 1);
            let rest = s.skip(k + 1);
            lemma_lines_of_pieces(rest);
            assert(piece.drop_last() =~= s.take(k));
            assert(line_of(piece) == strip_cr(s.take(k)));
            assert((seq![piece] + pieces_of(rest)).map_values(line) =~= seq![line_of(piece)]
                + pieces_of(rest).map_values(line));
        } else {
            assert(s[s.len() - 1] != '\n');
            assert(seq![s].map_values(line) =~= seq![s]);
        }
    }
}

/// A text is its pieces, one after the other.
pub proof fn lemma_pieces_flatten(s: Seq<char>)
    ensures
        pieces_of(s).flatten() == s,
    decreases s.len(),
{
    if s.len() == 0 {
        assert(pieces_of(s).flatten() =~= s);
    } else {
        lemma_find(s, '\n');
        let k = find(s, '\n');
        if k < s.len() {
            let piece = s.take(k + 1);
            let rest = s.skip(k + 1);
            let all = seq![piece] + pieces_of(rest);
            lemma_pieces_flatten(rest);
            assert(all.first() == piece);
            assert(all.drop_first() =~= pieces_of(rest));
            assert(piece + rest =~= s);
        } else {
            let one = seq![s];
            let none = Seq::<Seq<char>>::empty();
            assert(one.drop_first() =~= none);
            assert(none.flatten() =~= Seq::<char>::empty());
            assert(one.flatten() == one.first() + one.drop_first().flatten());
            assert(one.flatten() =~= s);
        }
    }
}

/// The pieces of a text are pieces, and each but the last ends in a line
/// feed.
pub proof fn lemma_pieces_are_cut(s: Seq<char>)
    ensures
        is_cut(pieces_of(s)),
    decreases s.len(),
{
    if s.len() > 0 {
        lemma_find(s, '\n');
        let k = find(s, '\n');
        if k < s.len() {
            let piece = s.take(k + 1);
            let rest = s.skip(k + 1);
            let all = seq![piece] + pieces_of(rest);
            lemma_pieces_are_cut(rest);
            assert(is_piece(piece));
            assert(piece.last() == '\n');
            assert forall|i: int| 0 <= i < all.len() implies is_piece(#[trigger] all[i]) && (i
                < all.len() - 1 ==> all[i].last() == '\n') by {
                if i > 0 {
                    assert(all[i] == pieces_of(rest)[i - 1]);
                }
            }
        } else {
            assert(is_piece(s));
        }
    }
}

/// Pieces put one after the other make a text that has exactly those
/// pieces.
pub proof fn lemma_pieces_of_cut(pieces: Seq<Seq<char>>)
    requires
        is_cut(pieces),
    ensures
        pieces_of(pieces.flatten()) == pieces,
    decreases pieces.len(),
{
    if pieces.len() == 0 {
        assert(pieces_of(pieces.flatten()) =~= pieces);
    } else {
        let piece = pieces.first();
        let rest = pieces.drop_first();
        let s = pieces.flatten();
        assert(is_piece(pieces[0]));
        assert(s == piece + rest.flatten());
        assert forall|i: int| 0 <= i < rest.len() implies is_piece(#[trigger] rest[i]) && (i
            < rest.len() - 1 ==> rest[i].last() == '\n') by {
            assert(rest[i] == pieces[i + 1]);
        }
        lemma_pieces_of_cut(rest);
        if rest.len() == 0 {
            assert(rest.flatten() =~= Seq::<char>::empty());
            assert(s =~= piece);
            if piece.last() == '\n' {
                lemma_find_is(s, '\n', piece.len() - 1);
                assert(s.take(piece.len() as int) =~= piece);
                assert(s.skip(piece.len() as int) =~= Seq::<char>::empty());
                assert(seq![piece] + pieces_of(Seq::<char>::empty()) =~= pieces);
            } else {
                lemma_find_is(s, '\n', piece.len() as int);
                assert(seq![s] =~= pieces);
            }
        } else {
            assert(pieces[0].last() == '\n');
            lemma_find_is(s, '\n', piece.len() - 1);
            assert(s.take(piece.len() as int) =~= piece);
            assert(s.skip(piece.len() as int) =~= rest.flatten());
            assert(seq![piece] + rest =~= pieces);
        }
    }
}

/// The pieces of a text that follows complete lines are the pieces of both.
pub proof fn lemma_pieces_concat(a: Seq<char>, b: Seq<char>)
    requires
        a.len() == 0 || a.last() == '\n',
    ensures
        pieces_of(a + b) == pieces_of(a) + pieces_of(b),
    decreases a.len(),
{
    if a.len() == 0 {
        assert(a + b =~= b);
        assert(pieces_of(a) + pieces_of(b) =~= pieces_of(b));
    } else {
        lemma_find(a, '\n');
        let k = find(a, '\n');
        assert(k < a.len()) by {
            if k == a.len() {
                assert(a[a.len() - 1] != '\n');
            }
        }
        lemma_find_is(a + b, '\n', k);
        let rest = a.skip(k + 1);
        assert((a + b).take(k + 1) =~= a.take(k + 1));
        assert((a + b).skip(k + 1) =~= rest + b);
        assert(rest.len() > 0 ==> rest.last() == a.last());
        lemma_pieces_concat(rest, b);
        assert(seq![a.take(k + 1)] + (pieces_of(rest) + pieces_of(b)) =~= (seq![a.take(k + 1)]
            + pieces_of(rest)) + pieces_of(b));
    }
}

/// A text without line feed, followed by one, is one piece.
pub proof fn lemma_pieces_of_one_line(line: Seq<char>)
    requires
        forall|j: int| 0 <= j < line.len() ==> line[j] != '\n',
    ensures
        pieces_of(line.push('\n')) == seq![line.push('\n')],
{
    let s = line.push('\n');
    lemma_find_is(s, '\n', line.len() as int);
    assert(s.take(line.len() as int + 1) =~= s);
    assert(s.skip(line.len() as int + 1) =~= Seq::<char>::empty());
    assert(seq![s] + pieces_of(Seq::<char>::empty()) =~= seq![s]);
}

/// Whether `c` is whitespace.
pub fn is_whitespace(c: char) -> (b: bool)
    ensures
        b == whitespace(c),
{
    ('\u{9}' <= c && c <= '\u{d}') || c == ' ' || c == '\u{85}' || c == '\u{a0}' || c == '\u{1680}'
        || ('\u{2000}' <= c && c <= '\u{200a}') || c == '\u{2028}' || c == '\u{2029}' || c
        == '\u{202f}' || c == '\u{205f}' || c == '\u{3000}'
}

/// The index of the first `c` in `s`, or the length of `s`.
pub fn find_char(s: &[char], c: char) -> (k: usize)
    ensures
        k == find(s@, c),
{
    let n = s.len();
    let mut i: usize = 0;
    while i < n && s[i] != c
        invariant
            n == s@.len(),
            i <= n,
            forall|j: int| 0 <= j < i ==> s@[j] != c,
        decreases n - i,
    {
        i += 1;
    }
    proof {
        lemma_find_is(s@, c, i as int);
    }
    i
}

/// Whether `s` begins with `prefix`.
pub fn starts_with(s: &[char], prefix: &[char]) -> (b: bool)
    ensures
        b == prefix@.is_prefix_of(s@),
{
    let n = prefix.len();
    if n > s.len() {
        return false;
    }
    let mut i: usize = 0;
    while i < n
        invariant
            n == prefix@.len(),
            n <= s@.len(),
            i <= n,
            forall|j: int| 0 <= j < i ==> s@[j] == prefix@[j],
        decreases n - i,
    {
        if s[i] != prefix[i] {
            assert(s@.subrange(0, n as int)[i as int] != prefix@[i as int]);
            return false;
        }
        i += 1;
    }
    assert(s@.subrange(0, n as int) =~= prefix@);
    true
}

/// Whether `needle` occurs in `hay`.
pub fn contains(hay: &[char], needle: &[char]) -> (b: bool)
    ensures
        b == occurs_in(hay@, needle@),
{
    let n = hay.len();
    let m = needle.len();
    if m > n {
        return false;
    }
    let last = n - m;
    let mut i: usize = 0;
    while i <= last
        invariant
            n == hay@.len(),
            m == needle@.len(),
            last == n - m,
            i <= last + 1,
            forall|j: int| 0 <= j < i ==> !occurs_at(hay@, needle@, j),
        decreases last + 1 - i,
    {
        let rest = slice_subrange(hay, i, n);
        if starts_with(rest, needle) {
            assert(rest@.subrange(0, m as int) =~= hay@.subrange(i as int, i + m));
            assert(occurs_at(hay@, needle@, i as int));
            return true;
        }
        assert(!occurs_at(hay@, needle@, i as int)) by {
            assert(rest@.subrange(0, m as int) =~= hay@.subrange(i as int, i + m));
        }
        i += 1;
    }
    false
}

/// Bounds `(a, b)` such that `s[a..b]` is `s` without leading and trailing
/// whitespace.
pub fn trim_bounds(s: &[char]) -> (r: (usize, usize))
    ensures
        r.0 <= r.1 <= s@.len(),
        s@.subrange(r.0 as int, r.1 as int) == trimmed(s@),
{
    let n = s.len();
    let mut a: usize = 0;
    assert(s@.skip(0) =~= s@);
    while a < n && is_whitespace(s[a])
        invariant
            n == s@.len(),
            a <= n,
            trim_start(s@) == trim_start(s@.skip(a as int)),
        decreases n - a,
    {
        assert(s@.skip(a as int).skip(1) =~= s@.skip(a + 1));
        a += 1;
    }
    let mut b: usize = n;
    assert(s@.subrange(a as int, n as int) =~= s@.skip(a as int));
    while b > a && is_whitespace(s[b - 1])
        invariant
            a <= b <= n,
            n == s@.len(),
            trimmed(s@) == trim_end(s@.subrange(a as int, b as int)),
        decreases b,
    {
        assert(s@.subrange(a as int, b as int).drop_last() =~= s@.subrange(a as int, b - 1));
        b -= 1;
    }
    (a, b)
}

/// The bounds of the lines of `s`, in order: for each line where it
/// starts, where it ends, and where the next line starts.
pub fn line_bounds(s: &[char]) -> (r: Vec<(usize, usize, usize)>)
    ensures
        bounds_lines(r@, s@),
{
    let n = s.len();
    let mut r: Vec<(usize, usize, usize)> = Vec::new();
    let mut start: usize = 0;
    let ghost mut lines: Seq<Seq<char>> = Seq::empty();
    let ghost mut pieces: Seq<Seq<char>> = Seq::empty();
    assert(s@.skip(0) =~= s@);
    while start < n
        invariant
            n == s@.len(),
            start <= n,
            r@.len() == lines.len(),
            r@.len() == pieces.len(),
            lines_of(s@) == lines + lines_of(s@.skip(start as int)),
            pieces_of(s@) == pieces + pieces_of(s@.skip(start as int)),
            forall|i: int|
                #![trigger r@[i]]
                0 <= i < r@.len() ==> {
                    &&& r@[i].0 <= r@[i].1 <= r@[i].2 <= n
                    &&& lines[i] == s@.subrange(r@[i].0 as int, r@[i].1 as int)
                    &&& pieces[i] == s@.subrange(r@[i].0 as int, r@[i].2 as int)
                },
        decreases n - start,
    {
        let rest = slice_subrange(s, start, n);
        assert(rest@ =~= s@.skip(start as int));
        let k = find_char(rest, '\n');
        proof {
            lemma_find(rest@, '\n');
        }
        let stop = start + k;
        if k < rest.len() {
            let end = if k > 0 && s[stop - 1] == '\r' {
                stop - 1
            } else {
                stop
            };
            proof {
                let line = strip_cr(rest@.take(k as int));
                let piece = rest@.take(k + 1);
                let after = s@.skip(stop + 1);
                assert(rest@.take(k as int) =~= s@.subrange(start as int, stop as int));
                assert(line =~= s@.subrange(start as int, end as int));
                assert(piece =~= s@.subrange(start as int, stop + 1));
                assert(rest@.skip(k + 1) =~= after);
                assert(lines_of(rest@) == seq![line] + lines_of(after));
                assert(pieces_of(rest@) == seq![piece] + pieces_of(after));
                assert(lines + (seq![line] + lines_of(after)) =~= lines.push(line) + lines_of(
                    after,
                ));
                assert(pieces + (seq![piece] + pieces_of(after)) =~= pieces.push(piece)
                    + pieces_of(after));
                lines = lines.push(line);
                pieces = pieces.push(piece);
            }
            r.push((start, end, stop + 1));
            start = stop + 1;
        } else {
            proof {
                let none = Seq::<Seq<char>>::empty();
                assert(rest@ =~= s@.subrange(start as int, n as int));
                assert(lines_of(rest@) == seq![rest@]);
                assert(pieces_of(rest@) == seq![rest@]);
                assert(lines_of(s@.skip(n as int)) =~= none);
                assert(pieces_of(s@.skip(n as int)) =~= none);
                assert(lines + seq![rest@] =~= lines.push(rest@) + none);
                assert(pieces + seq![rest@] =~= pieces.push(rest@) + none);
                lines = lines.push(rest@);
                pieces = pieces.push(rest@);
            }
            r.push((start, n, n));
            start = n;
        }
    }
    assert(lines_of(s@.skip(n as int)) =~= Seq::<Seq<char>>::empty());
    assert(pieces_of(s@.skip(n as int)) =~= Seq::<Seq<char>>::empty());
    assert(lines_of(s@) =~= lines);
    assert(pieces_of(s@) =~= pieces);
    r
}

/// `s` with every occurrence of `from` replaced by `to`, as `replaced`
/// defines it.
pub fn replace(s: &str, from: &str, to: &str) -> (r: String)
    ensures
        r@ == replaced(s@, from@, to@),
{
    let sv = chars_of(s);
    let fv = chars_of(from);
    let n = sv.len();
    let m = fv.len();
    if m == 0 || n == 0 {
        return s.to_owned();
    }
    let mut out = String::new();
    let mut kept: usize = 0;
    let mut i: usize = 0;
    assert(s@.skip(0) =~= s@);
    while i < n
        invariant
            n == s@.len(),
            m == from@.len(),
            m > 0,
            sv@ == s@,
            fv@ == from@,
            kept <= i <= n,
            replaced(s@, from@, to@) == out@ + s@.subrange(kept as int, i as int) + replaced(
                s@.skip(i as int),
                from@,
                to@,
            ),
        decreases n - i,
    {
        let rest = slice_subrange(sv.as_slice(), i, n);
        assert(rest@ =~= s@.skip(i as int));
        let ghost before = out@ + s@.subrange(kept as int, i as int);
        if starts_with(rest, fv.as_slice()) {
            out.append(s.substring_char(kept, i));
            out.append(to);
            assert(s@.skip(i as int).skip(m as int) =~= s@.skip(i + m));
            assert(before + (to@ + replaced(s@.skip(i + m), from@, to@)) =~= out@ + s@.subrange(
                i + m,
                i + m,
            ) + replaced(s@.skip(i + m), from@, to@));
            i += m;
            kept = i;
        } else {
            assert(s@.skip(i as int).skip(1) =~= s@.skip(i + 1));
            assert(before + (seq![s@[i as int]] + replaced(s@.skip(i + 1), from@, to@)) =~= out@
                + s@.subrange(kept as int, i + 1) + replaced(s@.skip(i + 1), from@, to@));
            i += 1;
        }
    }
    out.append(s.substring_char(kept, n));
    assert(replaced(s@.skip(n as int), from@, to@) =~= Seq::<char>::empty());
    assert(out@ =~= replaced(s@, from@, to@));
    out
}

/// Whether `a` and `b` are the same text.
pub fn same(a: &str, b: &str) -> (r: bool)
    ensures
        r == (a@ == b@),
{
    let av = chars_of(a);
    let bv = chars_of(b);
    if av.len() != bv.len() {
        return false;
    }
    let r = starts_with(av.as_slice(), bv.as_slice());
    assert(a@.subrange(0, a@.len() as int) =~= a@);
    r
}

/// The characters of `s`, in order, for constant-time indexing.
pub fn chars_of(s: &str) -> (v: Vec<char>)
    ensures
        v@ == s@,
{
    broadcast use group_string_axioms;

    let mut v: Vec<char> = Vec::new();
    for c in it: s.chars()
        invariant
            it.seq() == s@,
            v@ == s@.take(it.index()),
    {
        v.push(c);
    }
    v
}

} // verus!
