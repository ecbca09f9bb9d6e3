//! Properties that hold across the library's functions.

use vstd::prelude::*;

use crate::headers::Headers;
use crate::request::{
    header_name, header_value, method_of, read_line, read_lines, read_request,
    request_lines_complete, version_of, Method, RequestView, Version,
};
use crate::response::{decimal, digit};
use crate::router::{extension, page_type, routable, segments};
use crate::text::{first_match, is_char, lemma_first_match, lemma_first_match_is, lines, split, strip_cr};

verus! {

/// Splitting text with one more separator at its end gives one more, empty,
/// piece.
proof fn lemma_split_push(s: Seq<char>, c: char)
    ensures
        split(s.push(c), c) == split(s, c).push(seq![]),
    decreases s.len(),
{
    let t = s.push(c);
    lemma_first_match(s, is_char(c));
    let j = first_match(s, is_char(c)) as int;
    assert forall|k: int| 0 <= k < j implies !is_char(c)(#[trigger] t[k]) by {
        assert(t[k] == s[k]);
    }
    lemma_first_match_is(t, is_char(c), j);
    if j >= s.len() {
        assert(t.take(j) =~= s);
        assert(t.skip(j + 1) =~= Seq::<char>::empty());
        lemma_first_match_is(Seq::<char>::empty(), is_char(c), 0);
        assert(split(Seq::<char>::empty(), c) =~= seq![Seq::<char>::empty()]);
        assert(split(t, c) =~= split(s, c).push(seq![]));
    } else {
        let rest = s.skip(j + 1);
        lemma_split_push(rest, c);
        assert(t.take(j) =~= s.take(j));
        assert(t.skip(j + 1) =~= rest.push(c));
        assert(split(t, c) =~= split(s, c).push(seq![]));
    }
}

/// The last piece of a split is a suffix of the text.
proof fn lemma_split_last_suffix(s: Seq<char>, c: char)
    ensures
        split(s, c).len() >= 1,
        split(s, c).last().len() <= s.len(),
        split(s, c).last() == s.skip(s.len() - split(s, c).last().len()),
        forall|i: int| 0 <= i < split(s, c).last().len() ==> #[trigger] split(s, c).last()[i] != c,
        split(s, c).last().len() < s.len() ==> s[s.len() - split(s, c).last().len() - 1] == c,
    decreases s.len(),
{
    lemma_first_match(s, is_char(c));
    let j = first_match(s, is_char(c)) as int;
    if j >= s.len() {
        assert(s.skip(0) =~= s);
        assert forall|i: int| 0 <= i < s.len() implies #[trigger] s[i] != c by {
            assert(!is_char(c)(s[i]));
        }
    } else {
        let rest = s.skip(j + 1);
        lemma_split_last_suffix(rest, c);
        let l = split(rest, c).last();
        assert(split(s, c).last() == l);
        assert(rest.skip(rest.len() - l.len()) =~= s.skip(s.len() - l.len()));
        if l.len() < rest.len() {
            assert(s[s.len() - l.len() - 1] == rest[rest.len() - l.len() - 1]);
        } else {
            assert(is_char(c)(s[j]));
        }
    }
}

/// Reading an empty line changes nothing.
proof fn lemma_empty_line(r: RequestView)
    ensures
        read_line(r, seq![]) == r,
{
}

/// A line ending at the end of the text changes neither the request that
/// the text describes nor whether its request lines are complete, unless the
/// text ends in a carriage return, which the line ending would then remove.
pub proof fn law_final_line_ending(s: Seq<char>)
    requires
        !(s.len() > 0 && s.last() == '\r'),
    ensures
        read_request(s.push('\n')) == read_request(s),
        request_lines_complete(s.push('\n')) == request_lines_complete(s),
{
    let t = s.push('\n');
    let p = split(s, '\n');
    lemma_split_push(s, '\n');
    lemma_split_last_suffix(s, '\n');
    assert(split(t, '\n') == p.push(seq![]));
    if p.last().len() == 0 {
        assert(lines(t) =~= lines(s).push(seq![])) by {
            assert(split(t, '\n').drop_last() =~= p);
            assert(split(t, '\n').last() =~= Seq::<char>::empty());
            assert(lines(t).len() == p.len());
            assert(lines(s).len() == p.len() - 1);
            assert forall|i: int| 0 <= i < p.len() implies lines(t)[i] == lines(s).push(seq![])[i] by {
                assert(lines(t)[i] == strip_cr(p[i]));
                if i < p.len() - 1 {
                    assert(lines(s)[i] == strip_cr(p.drop_last()[i]));
                } else {
                    assert(p[i] =~= Seq::<char>::empty());
                }
            }
        }
        assert(lines(t).drop_last() =~= lines(s));
        lemma_empty_line(read_lines(lines(s)));
        assert(request_lines_complete(t) == request_lines_complete(s)) by {
            assert forall|i: int| 0 <= i < lines(s).len() implies lines(t)[i] == #[trigger] lines(s)[i] by {}
            assert(!crate::request::is_request_line(lines(t)[lines(s).len() as int])) by {
                assert(lines(t)[lines(s).len() as int] =~= Seq::<char>::empty());
            }
        }
    } else {
        let last = p.last();
        assert(last.last() == s.last()) by {
            assert(last == s.skip(s.len() - last.len()));
        }
        assert(strip_cr(last) == last);
        assert(lines(t) =~= lines(s)) by {
            assert(split(t, '\n').drop_last() =~= p);
            assert forall|i: int| 0 <= i < lines(s).len() implies lines(t)[i] == lines(s)[i] by {
                if i == lines(s).len() - 1 {
                    assert(lines(s)[i] == last);
                }
            }
        }
    }
}

/// After `Headers::insert` sets a name, looking the name up gives the value
/// set, every other name keeps its value, and the map has one more name
/// exactly where the name was new.
pub proof fn law_header_set_then_get(
    before: Headers,
    after: Headers,
    name: Seq<char>,
    value: Seq<char>,
)
    requires
        after@ == before@.insert(name, value),
    ensures
        after@.contains_key(name),
        after@[name] == value,
        forall|other: Seq<char>|
            other != name ==> (#[trigger] after@.contains_key(other) == before@.contains_key(other)
                && (before@.contains_key(other) ==> after@[other] == before@[other])),
        before@.dom().finite() ==> after@.len() == if before@.contains_key(name) {
            before@.len()
        } else {
            before@.len() + 1
        },
{
    if before@.dom().finite() {
        if before@.contains_key(name) {
            assert(after@.dom() =~= before@.dom());
        } else {
            assert(after@.dom() =~= before@.dom().insert(name));
        }
    }
}

/// Splitting `s`, a separator, then `x` gives the pieces of `s` followed by
/// the pieces of `x`.
proof fn lemma_split_concat(s: Seq<char>, c: char, x: Seq<char>)
    ensures
        split(s.push(c) + x, c) == split(s, c) + split(x, c),
    decreases s.len(),
{
    let t = s.push(c) + x;
    lemma_first_match(s, is_char(c));
    let j = first_match(s, is_char(c)) as int;
    assert forall|k: int| 0 <= k < j implies !is_char(c)(#[trigger] t[k]) by {
        assert(t[k] == s[k]);
    }
    assert(t[s.len() as int] == c);
    lemma_first_match_is(t, is_char(c), j);
    if j >= s.len() {
        assert(t.take(j) =~= s);
        assert(t.skip(j + 1) =~= x);
        assert(split(t, c) =~= split(s, c) + split(x, c));
    } else {
        let rest = s.skip(j + 1);
        lemma_split_concat(rest, c, x);
        assert(t.take(j) =~= s.take(j));
        assert(t.skip(j + 1) =~= rest.push(c) + x);
        assert(split(t, c) =~= split(s, c) + split(x, c));
    }
}

/// The value of a run of ASCII digits read as a base-10 numeral, each
/// character counting as its code minus the code of `'0'` (48).
pub open spec fn numeral_value(s: Seq<char>) -> int
    decreases s.len(),
{
    if s.len() == 0 {
        0
    } else {
        numeral_value(s.drop_last()) * 10 + (s.last() as int - 48)
    }
}

/// The decimal text that responses carry for status codes and lengths reads
/// back as the number: it is a non-empty run of the ASCII digits `'0'` to
/// `'9'`, with no leading zero, whose base-10 value is `n`.
pub proof fn law_decimal_reads_back(n: nat)
    ensures
        decimal(n).len() >= 1,
        forall|i: int| 0 <= i < decimal(n).len() ==> 48 <= #[trigger] (decimal(n)[i] as int) <= 57,
        numeral_value(decimal(n)) == n,
        decimal(n)[0] == '0' ==> n == 0,
    decreases n,
{
    assert(digit(n % 10) as int == 48 + n % 10);
    if n >= 10 {
        law_decimal_reads_back(n / 10);
        let d = decimal(n / 10);
        assert(decimal(n) == d.push(digit(n % 10)));
        assert(decimal(n).drop_last() =~= d);
        assert(decimal(n)[0] == d[0]);
        assert forall|i: int| 0 <= i < decimal(n).len() implies 48 <= #[trigger] (decimal(n)[i] as int)
            <= 57 by {
            if i < d.len() {
                assert(decimal(n)[i] == d[i]);
            }
        }
        assert(n / 10 >= 1);
        assert(decimal(n).last() == digit(n % 10));
        assert(numeral_value(decimal(n)) == numeral_value(d) * 10 + (n % 10));
        assert((n / 10) * 10 + n % 10 == n) by (nonlinear_arith);
    } else {
        assert(decimal(n) == seq![digit(n)]);
        assert(decimal(n).drop_last() =~= Seq::<char>::empty());
        assert(decimal(n).last() == digit(n));
        assert(numeral_value(decimal(n).drop_last()) == 0);
        assert(n % 10 == n);
        assert(numeral_value(decimal(n)) == 0 * 10 + (digit(n) as int - 48));
    }
}

/// A header line is cut at its first colon: the name is everything before
/// it, and the value is everything strictly between it and the next colon
/// (or the line's end), every other character kept.
pub proof fn law_header_line_split(l: Seq<char>, i: int, j: int)
    requires
        0 <= i < j <= l.len(),
        l[i] == ':',
        forall|k: int| 0 <= k < i ==> l[k] != ':',
        forall|k: int| i < k < j ==> l[k] != ':',
        j < l.len() ==> l[j] == ':',
    ensures
        header_name(l) == l.take(i),
        header_value(l) == l.subrange(i + 1, j),
        header_value(l).len() == j - i - 1,
{
    assert forall|k: int| 0 <= k < i implies !is_char(':')(#[trigger] l[k]) by {}
    lemma_first_match_is(l, is_char(':'), i);
    let rest = l.skip(i + 1);
    assert forall|k: int| 0 <= k < j - i - 1 implies !is_char(':')(#[trigger] rest[k]) by {
        assert(rest[k] == l[i + 1 + k]);
    }
    if j < l.len() {
        assert(rest[j - i - 1] == l[j]);
    }
    lemma_first_match_is(rest, is_char(':'), j - i - 1);
    assert(split(l, ':') == seq![l.take(i)] + split(rest, ':'));
    if j < l.len() {
        assert(split(rest, ':')[0] == rest.take(j - i - 1));
    } else {
        assert(split(rest, ':') == seq![rest]);
    }
    assert(rest.take(j - i - 1) =~= l.subrange(i + 1, j));
    assert(rest =~= l.subrange(i + 1, j) || j < l.len());
}

/// A line without a colon is all name and has an empty value.
pub proof fn law_header_line_without_colon(l: Seq<char>)
    requires
        forall|k: int| 0 <= k < l.len() ==> l[k] != ':',
    ensures
        header_name(l) == l,
        header_value(l) == Seq::<char>::empty(),
{
    assert forall|k: int| 0 <= k < l.len() implies !is_char(':')(#[trigger] l[k]) by {}
    lemma_first_match_is(l, is_char(':'), l.len() as int);
}

/// Only the exact word `GET` is the method Get, only the exact word `POST`
/// is Post, and every other word is no known method; likewise only the
/// exact word `HTTP/1.1` is version 1.1.
pub proof fn law_method_and_version_words(w: Seq<char>)
    ensures
        method_of(w) == Method::Get <==> w == seq!['G', 'E', 'T'],
        method_of(w) == Method::Post <==> w == seq!['P', 'O', 'S', 'T'],
        method_of(w) == Method::Uninitialized <==> (w != seq!['G', 'E', 'T'] && w != seq![
            'P',
            'O',
            'S',
            'T',
        ]),
        version_of(w) == Version::V1_1 <==> w == seq!['H', 'T', 'T', 'P', '/', '1', '.', '1'],
{
    assert(seq!['G', 'E', 'T'] != seq!['P', 'O', 'S', 'T']) by {
        assert(seq!['G', 'E', 'T'].len() != seq!['P', 'O', 'S', 'T'].len());
    }
}

/// The extension of a file name is the part after its last dot: a suffix of
/// the name with no dot in it, which is the whole name or stands right after
/// a dot.
pub proof fn law_extension_after_last_dot(n: Seq<char>)
    ensures
        extension(n).len() <= n.len(),
        extension(n) == n.skip(n.len() - extension(n).len()),
        forall|i: int| 0 <= i < extension(n).len() ==> #[trigger] extension(n)[i] != '.',
        extension(n).len() < n.len() ==> n[n.len() - extension(n).len() - 1] == '.',
{
    lemma_split_last_suffix(n, '.');
}

/// The extension of a name that ends in a dot and `e`, where `e` has no dot,
/// is `e`.
proof fn lemma_extension_of(p: Seq<char>, e: Seq<char>)
    requires
        forall|i: int| 0 <= i < e.len() ==> e[i] != '.',
    ensures
        extension(p.push('.') + e) == e,
{
    let n = p.push('.') + e;
    law_extension_after_last_dot(n);
    let x = extension(n);
    if x.len() > e.len() {
        assert(x[x.len() - e.len() - 1] == n[n.len() - e.len() - 1]);
        assert(n[n.len() - e.len() - 1] == '.');
    } else if x.len() < e.len() {
        assert(n[n.len() - x.len() - 1] == e[e.len() - x.len() - 1]);
    }
    assert(x =~= e) by {
        assert forall|i: int| 0 <= i < x.len() implies x[i] == e[i] by {
            assert(x[i] == n[n.len() - x.len() + i]);
        }
    }
}

/// Any file whose name ends in `.js` is served as `text/javascript`, and
/// any whose name ends in `.css` as `text/css`, whatever stands before.
pub proof fn law_page_type_by_last_extension(p: Seq<char>)
    ensures
        page_type(p.push('.') + seq!['j', 's']) == Some("text/javascript"@),
        page_type(p.push('.') + seq!['c', 's', 's']) == Some("text/css"@),
{
    lemma_extension_of(p, seq!['j', 's']);
    lemma_extension_of(p, seq!['c', 's', 's']);
    reveal_strlit("js");
    reveal_strlit("css");
    assert("js"@ =~= seq!['j', 's']);
    assert("css"@ =~= seq!['c', 's', 's']);
}

/// Routing reads only a path's second and third segments: a routable
/// request stays routable when more segments are added to its path.
pub proof fn law_routable_with_more_segments(r: RequestView, x: Seq<char>)
    requires
        routable(r),
    ensures
        routable(RequestView { path: r.path.push('/') + x, ..r }),
{
    lemma_split_concat(r.path, '/', x);
    crate::text::lemma_split_nonempty(x, '/');
    let s = segments(r.path);
    let t = segments(r.path.push('/') + x);
    assert(t == s + segments(x));
    if r.method == Method::Get {
        assert(t[1] == s[1]);
    }
}

} // verus!
