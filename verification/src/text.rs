//! Character-level text handling: splitting on a separator, splitting into
//! lines and into whitespace-separated words, substring search.
//!
//! Text is modelled as `Seq<char>`, the view of `str` and `String`; the
//! executable functions work on `Vec<char>` and are proved against the spec
//! functions of this module.

use vstd::prelude::*;

verus! {

/// The characters of a piece list, each piece taken by its view.
pub open spec fn views(v: Seq<Vec<char>>) -> Seq<Seq<char>> {
    v.map_values(|x: Vec<char>| x@)
}

/// Predicate: the character is `c`.
pub open spec fn is_char(c: char) -> spec_fn(char) -> bool {
    |x: char| x == c
}

/// Whether `c` has the Unicode `White_Space` property, the set that
/// `char::is_whitespace` tests.
pub open spec fn is_white(c: char) -> bool {
    let u = c as u32;
    ||| 0x09 <= u <= 0x0d
    ||| u == 0x20
    ||| u == 0x85
    ||| u == 0xa0
    ||| u == 0x1680
    ||| 0x2000 <= u <= 0x200a
    ||| u == 0x2028
    ||| u == 0x2029
    ||| u == 0x202f
    ||| u == 0x205f
    ||| u == 0x3000
}

/// Predicate form of `is_white`.
pub open spec fn white() -> spec_fn(char) -> bool {
    |x: char| is_white(x)
}

/// Index of the first character of `s` that satisfies `p`, or `s.len()`
/// where there is none.
pub open spec fn first_match(s: Seq<char>, p: spec_fn(char) -> bool) -> nat
    decreases s.len(),
{
    if s.len() == 0 {
        0
    } else if p(s[0]) {
        0
    } else {
        1 + first_match(s.drop_first(), p)
    }
}

/// The pieces of `s` between occurrences of `c`, as `str::split` with a
/// `char` pattern yields them: always at least one piece, possibly empty.
pub open spec fn split(s: Seq<char>, c: char) -> Seq<Seq<char>>
    decreases s.len(),
{
    let j = first_match(s, is_char(c)) as int;
    if j >= s.len() {
        seq![s]
    } else {
        seq![s.take(j as int)] + split(s.skip(j + 1 as int), c)
    }
}

/// `l` without one trailing carriage return.
pub open spec fn strip_cr(l: Seq<char>) -> Seq<char> {
    if l.len() > 0 && l.last() == '\r' {
        l.drop_last()
    } else {
        l
    }
}

/// The lines of `s`, as `str::lines` yields them: split at `\n`, each line
/// that ended in `\n` loses one `\r` before it, and a final empty piece
/// (text that ends in `\n`, or empty text) is no line.
pub open spec fn lines(s: Seq<char>) -> Seq<Seq<char>> {
    let p = split(s, '\n');
    let ended = p.drop_last().map_values(|l: Seq<char>| strip_cr(l));
    if p.last().len() == 0 {
        ended
    } else {
        ended.push(p.last())
    }
}

/// The maximal runs of non-whitespace characters of `s`, in order, as
/// `str::split_whitespace` yields them.
pub open spec fn words(s: Seq<char>) -> Seq<Seq<char>>
    decreases s.len(),
{
    if s.len() == 0 {
        seq![]
    } else if is_white(s[0]) {
        words(s.drop_first())
    } else {
        let n = first_match(s, white());
        proof {
            lemma_first_match(s, white());
        }
        seq![s.take(n as int)] + words(s.skip(n as int))
    }
}

/// Whether `needle` occurs in `hay` as a contiguous run.
pub open spec fn contains_seq(hay: Seq<char>, needle: Seq<char>) -> bool {
    exists|i: int| 0 <= i && i + needle.len() <= hay.len() && #[trigger] hay.subrange(i, i + needle.len()) == needle
}

/// `first_match` lies within `s`, no character before it satisfies `p`, and
/// the character at it does, where it is inside `s`.
pub proof fn lemma_first_match(s: Seq<char>, p: spec_fn(char) -> bool)
    ensures
        first_match(s, p) <= s.len(),
        forall|k: int| 0 <= k < first_match(s, p) ==> !p(#[trigger] s[k]),
        first_match(s, p) < s.len() ==> p(s[first_match(s, p) as int]),
        s.len() > 0 && !p(s[0]) ==> first_match(s, p) >= 1,
    decreases s.len(),
{
    if s.len() > 0 && !p(s[0]) {
        lemma_first_match(s.drop_first(), p);
        assert forall|k: int| 0 <= k < first_match(s, p) implies !p(#[trigger] s[k]) by {
            if k > 0 {
                assert(s[k] == s.drop_first()[k - 1]);
            }
        }
    }
}

/// A position before which nothing satisfies `p`, and at which `p` holds or
/// `s` ends, is `first_match`.
pub proof fn lemma_first_match_is(s: Seq<char>, p: spec_fn(char) -> bool, j: int)
    requires
        0 <= j <= s.len(),
        forall|k: int| 0 <= k < j ==> !p(#[trigger] s[k]),
        j < s.len() ==> p(s[j]),
    ensures
        first_match(s, p) == j,
{
    lemma_first_match(s, p);
    let r = first_match(s, p) as int;
    if r < j {
        assert(!p(s[r]));
    } else if j < r {
        assert(!p(s[j]));
    }
}

/// `String::push`: appends one character to the end of the string.
#[verifier::external_body]
pub(crate) fn push_char(s: &mut String, c: char)
    ensures
        final(s)@ == old(s)@.push(c),
{
    s.push(c);
}

/// The characters of `s`, in order.
pub fn chars_of(s: &str) -> (res: Vec<char>)
    ensures
        res@ == s@,
{
    let mut res: Vec<char> = Vec::new();
    for c in it: s.chars()
        invariant
            res@ == it.seq().take(it.index()),
            it.seq() == s@,
    {
        res.push(c);
    }
    res
}

/// A `String` holding the characters of `v`.
pub fn string_of(v: &[char]) -> (res: String)
    ensures
        res@ == v@,
{
    let mut res = String::new();
    let mut i: usize = 0;
    while i < v.len()
        invariant
            i <= v.len(),
            res@ == v@.take(i as int),
        decreases v.len() - i,
    {
        push_char(&mut res, v[i]);
        i += 1;
        assert(res@ =~= v@.take(i as int));
    }
    assert(v@.take(v.len() as int) =~= v@);
    res
}

/// The characters of `s` from `from` up to `to`, as a new vector.
pub fn copy_range(s: &[char], from: usize, to: usize) -> (res: Vec<char>)
    requires
        from <= to <= s.len(),
    ensures
        res@ == s@.subrange(from as int, to as int),
{
    let mut res: Vec<char> = Vec::new();
    let mut i: usize = from;
    while i < to
        invariant
            from <= i <= to <= s.len(),
            res@ == s@.subrange(from as int, i as int),
        decreases to - i,
    {
        res.push(s[i]);
        i += 1;
        assert(res@ =~= s@.subrange(from as int, i as int));
    }
    res
}

/// Whether `c` is whitespace in the sense of `char::is_whitespace`.
pub fn is_whitespace(c: char) -> (res: bool)
    ensures
        res == is_white(c),
{
    let u = c as u32;
    (0x09 <= u && u <= 0x0d) || u == 0x20 || u == 0x85 || u == 0xa0 || u == 0x1680 || (0x2000 <= u
        && u <= 0x200a) || u == 0x2028 || u == 0x2029 || u == 0x202f || u == 0x205f || u == 0x3000
}

/// The pieces of `s` between occurrences of `c` (see `split`).
pub fn split_chars(s: &[char], c: char) -> (res: Vec<Vec<char>>)
    ensures
        views(res@) == split(s@, c),
{
    let mut res: Vec<Vec<char>> = Vec::new();
    let mut start: usize = 0;
    let mut i: usize = 0;
    assert(s@.skip(0) =~= s@);
    assert(views(res@) + split(s@, c) =~= split(s@, c));
    while i < s.len()
        invariant
            start <= i <= s.len(),
            forall|k: int| start <= k < i ==> s@[k] != c,
            views(res@) + split(s@.skip(start as int), c) == split(s@, c),
        decreases s.len() - i,
    {
        if s[i] == c {
            let ghost rest = s@.skip(start as int);
            proof {
                lemma_first_match_is(rest, is_char(c), i - start);
                assert(rest.take(i - start) =~= s@.subrange(start as int, i as int));
                assert(rest.skip(i - start + 1) =~= s@.skip(i + 1));
            }
            let piece = copy_range(s, start, i);
            let ghost before = res@;
            res.push(piece);
            assert(views(res@) =~= views(before).push(piece@));
            start = i + 1;
            i = i + 1;
        } else {
            i = i + 1;
        }
    }
    let ghost rest = s@.skip(start as int);
    proof {
        lemma_first_match_is(rest, is_char(c), rest.len() as int);
    }
    let piece = copy_range(s, start, s.len());
    let ghost before = res@;
    assert(piece@ =~= rest);
    res.push(piece);
    assert(views(res@) =~= views(before).push(piece@));
    res
}

/// The maximal runs of non-whitespace characters of `s` (see `words`).
pub fn words_of(s: &[char]) -> (res: Vec<Vec<char>>)
    ensures
        views(res@) == words(s@),
{
    let mut res: Vec<Vec<char>> = Vec::new();
    let mut i: usize = 0;
    assert(s@.skip(0) =~= s@);
    assert(views(res@) + words(s@) =~= words(s@));
    while i < s.len()
        invariant
            i <= s.len(),
            views(res@) + words(s@.skip(i as int)) == words(s@),
        decreases s.len() - i,
    {
        let ghost rest = s@.skip(i as int);
        if is_whitespace(s[i]) {
            assert(rest.drop_first() =~= s@.skip(i + 1));
            i = i + 1;
        } else {
            let mut j: usize = i;
            while j < s.len() && !is_whitespace(s[j])
                invariant
                    i <= j <= s.len(),
                    forall|k: int| i <= k < j ==> !is_white(#[trigger] s@[k]),
                decreases s.len() - j,
            {
                j = j + 1;
            }
            proof {
                assert forall|k: int| 0 <= k < j - i implies !white()(#[trigger] rest[k]) by {
                    assert(rest[k] == s@[i + k]);
                }
                lemma_first_match_is(rest, white(), j - i);
                assert(rest.take(j - i) =~= s@.subrange(i as int, j as int));
                assert(rest.skip(j - i) =~= s@.skip(j as int));
            }
            let word = copy_range(s, i, j);
            let ghost before = res@;
            res.push(word);
            assert(views(res@) =~= views(before).push(word@));
            i = j;
        }
    }
    assert(views(res@) + words(s@.skip(i as int)) =~= views(res@));
    res
}

/// Whether `needle` occurs in `hay` (see `contains_seq`).
pub fn contains_chars(hay: &[char], needle: &[char]) -> (res: bool)
    ensures
        res == contains_seq(hay@, needle@),
{
    if needle.len() > hay.len() {
        return false;
    }
    let last = hay.len() - needle.len();
    let mut i: usize = 0;
    while i <= last
        invariant
            last + needle.len() == hay.len(),
            forall|k: int| 0 <= k < i ==> #[trigger] hay@.subrange(k, k + needle.len()) != needle@,
        decreases last + 1 - i,
    {
        let mut j: usize = 0;
        while j < needle.len() && hay[i + j] == needle[j]
            invariant
                i <= last,
                last + needle.len() == hay.len(),
                j <= needle.len(),
                forall|k: int| 0 <= k < j ==> hay@[i + k] == needle@[k],
            decreases needle.len() - j,
        {
            j = j + 1;
        }
        if j == needle.len() {
            assert(hay@.subrange(i as int, i + needle.len()) =~= needle@);
            return true;
        }
        assert(hay@.subrange(i as int, i + needle.len())[j as int] != needle@[j as int]);
        i = i + 1;
    }
    false
}

/// `split` always yields at least one piece.
pub proof fn lemma_split_nonempty(s: Seq<char>, c: char)
    ensures
        split(s, c).len() >= 1,
{
}

/// `s` without one trailing carriage return (see `strip_cr`).
pub fn strip_cr_of(s: &[char]) -> (res: Vec<char>)
    ensures
        res@ == strip_cr(s@),
{
    if s.len() > 0 && s[s.len() - 1] == '\r' {
        copy_range(s, 0, s.len() - 1)
    } else {
        let res = copy_range(s, 0, s.len());
        assert(res@ =~= s@);
        res
    }
}

/// The lines of `s` (see `lines`).
pub fn lines_of(s: &[char]) -> (res: Vec<Vec<char>>)
    ensures
        views(res@) == lines(s@),
{
    let p = split_chars(s, '\n');
    proof {
        lemma_split_nonempty(s@, '\n');
    }
    assert(p@.len() == split(s@, '\n').len());
    let n = p.len();
    let mut res: Vec<Vec<char>> = Vec::new();
    let mut k: usize = 0;
    while k < n - 1
        invariant
            1 <= n == p@.len(),
            views(p@) == split(s@, '\n'),
            k <= n - 1,
            res@.len() == k,
            forall|j: int| 0 <= j < k ==> #[trigger] res@[j]@ == strip_cr(p@[j]@),
        decreases n - 1 - k,
    {
        assert(views(p@)[k as int] == p@[k as int]@);
        let line = strip_cr_of(&p[k]);
        res.push(line);
        k = k + 1;
    }
    let ghost ps = split(s@, '\n');
    assert(views(p@)[n - 1] == p@[n - 1]@);
    if p[n - 1].len() > 0 {
        let last = copy_range(&p[n - 1], 0, p[n - 1].len());
        assert(last@ =~= p@[n - 1]@);
        let ghost before = res@;
        res.push(last);
        assert(views(res@) =~= lines(s@)) by {
            assert forall|j: int| 0 <= j < n - 1 implies views(res@)[j] == lines(s@)[j] by {
                assert(res@[j] == before[j]);
                assert(views(p@)[j] == p@[j]@);
            }
        }
    } else {
        assert(views(res@) =~= lines(s@)) by {
            assert forall|j: int| 0 <= j < n - 1 implies views(res@)[j] == lines(s@)[j] by {
                assert(views(p@)[j] == p@[j]@);
            }
        }
    }
    res
}

/// Appends the characters of `v` to `s`.
pub fn push_chars(s: &mut String, v: &[char])
    ensures
        final(s)@ == old(s)@ + v@,
{
    let ghost start = s@;
    let mut i: usize = 0;
    while i < v.len()
        invariant
            i <= v.len(),
            s@ == start + v@.take(i as int),
        decreases v.len() - i,
    {
        push_char(s, v[i]);
        i += 1;
        assert(s@ =~= start + v@.take(i as int));
    }
    assert(v@.take(v.len() as int) =~= v@);
}

/// Whether `a` and `b` hold the same characters.
pub fn chars_eq(a: &[char], b: &[char]) -> (res: bool)
    ensures
        res == (a@ == b@),
{
    if a.len() != b.len() {
        return false;
    }
    let mut i: usize = 0;
    while i < a.len()
        invariant
            a.len() == b.len(),
            i <= a.len(),
            forall|k: int| 0 <= k < i ==> a@[k] == b@[k],
        decreases a.len() - i,
    {
        if a[i] != b[i] {
            return false;
        }
        i += 1;
    }
    assert(a@ =~= b@);
    true
}

} // verus!
