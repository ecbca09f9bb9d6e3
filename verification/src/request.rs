//! HTTP requests: the request line, the headers and the body, read from the
//! text that a client sent.

use vstd::prelude::*;

use crate::headers::Headers;
use crate::text::{
    chars_eq, chars_of, contains_chars, contains_seq, lines, lines_of, push_chars, split,
    split_chars, string_of, views, words, words_of,
};

verus! {

/// The request method.
#[non_exhaustive]
#[derive(Debug, PartialEq, Eq, Structural, Clone, Copy)]
pub enum Method {
    Get,
    Post,
    Uninitialized,
}

/// The protocol version.
#[non_exhaustive]
#[derive(Debug, PartialEq, Eq, Structural, Clone, Copy)]
pub enum Version {
    V1_1,
    Uninitialized,
}

/// What a request asks for.
#[derive(Debug, PartialEq, Eq)]
pub enum Resource {
    Path(String),
}

/// The method that a word of a request line names: `GET`, `POST`, or none
/// that is known.
pub open spec fn method_of(w: Seq<char>) -> Method {
    if w == seq!['G', 'E', 'T'] {
        Method::Get
    } else if w == seq!['P', 'O', 'S', 'T'] {
        Method::Post
    } else {
        Method::Uninitialized
    }
}

/// The version that a word of a request line names: `HTTP/1.1`, or none
/// that is known.
pub open spec fn version_of(w: Seq<char>) -> Version {
    if w == seq!['H', 'T', 'T', 'P', '/', '1', '.', '1'] {
        Version::V1_1
    } else {
        Version::Uninitialized
    }
}

/// The method named by `w` (see `method_of`).
pub fn method_from_chars(w: &[char]) -> (res: Method)
    ensures
        res == method_of(w@),
{
    let get = vec!['G', 'E', 'T'];
    let post = vec!['P', 'O', 'S', 'T'];
    assert(get@ == seq!['G', 'E', 'T']);
    assert(post@ == seq!['P', 'O', 'S', 'T']);
    if chars_eq(w, &get) {
        Method::Get
    } else if chars_eq(w, &post) {
        Method::Post
    } else {
        Method::Uninitialized
    }
}

/// The version named by `w` (see `version_of`).
pub fn version_from_chars(w: &[char]) -> (res: Version)
    ensures
        res == version_of(w@),
{
    let v11 = vec!['H', 'T', 'T', 'P', '/', '1', '.', '1'];
    assert(v11@ == seq!['H', 'T', 'T', 'P', '/', '1', '.', '1']);
    if chars_eq(w, &v11) {
        Version::V1_1
    } else {
        Version::Uninitialized
    }
}

impl<'a> From<&'a str> for Method {
    fn from(s: &'a str) -> (res: Method) {
        method_from_chars(&chars_of(s))
    }
}

impl<'a> vstd::std_specs::convert::FromSpecImpl<&'a str> for Method {
    open spec fn obeys_from_spec() -> bool {
        true
    }

    open spec fn from_spec(s: &'a str) -> Method {
        method_of(s@)
    }
}

impl<'a> From<&'a str> for Version {
    fn from(s: &'a str) -> (res: Version) {
        version_from_chars(&chars_of(s))
    }
}

impl<'a> vstd::std_specs::convert::FromSpecImpl<&'a str> for Version {
    open spec fn obeys_from_spec() -> bool {
        true
    }

    open spec fn from_spec(s: &'a str) -> Version {
        version_of(s@)
    }
}

/// What a request holds, as plain values.
pub struct RequestView {
    pub method: Method,
    pub version: Version,
    pub path: Seq<char>,
    pub headers: Map<Seq<char>, Seq<char>>,
    pub body: Seq<char>,
}

/// A request, as read from the text that a client sent.
#[derive(Debug)]
pub struct Request {
    pub method: Method,
    pub version: Version,
    pub resource: Resource,
    pub headers: Headers,
    pub body: String,
}

/// The path of a resource.
pub open spec fn path_of(r: Resource) -> Seq<char> {
    match r {
        Resource::Path(p) => p@,
    }
}

impl View for Request {
    type V = RequestView;

    open spec fn view(&self) -> RequestView {
        RequestView {
            method: self.method,
            version: self.version,
            path: path_of(self.resource),
            headers: self.headers@,
            body: self.body@,
        }
    }
}

/// A line is taken for the request line where it contains `HTTP`.
pub open spec fn is_request_line(l: Seq<char>) -> bool {
    contains_seq(l, seq!['H', 'T', 'T', 'P'])
}

/// A line that is no request line is taken for a header where it contains
/// a colon.
pub open spec fn is_header_line(l: Seq<char>) -> bool {
    contains_seq(l, seq![':'])
}

/// A header's name: what stands before the first colon.
pub open spec fn header_name(l: Seq<char>) -> Seq<char> {
    split(l, ':')[0]
}

/// A header's value: what stands between the first colon and the next one,
/// or the line's end; empty where the line has no colon.
pub open spec fn header_value(l: Seq<char>) -> Seq<char> {
    if split(l, ':').len() > 1 {
        split(l, ':')[1]
    } else {
        seq![]
    }
}

/// The request before any line is read: no method, version 1.1, empty path,
/// no headers, empty body.
pub open spec fn empty_request() -> RequestView {
    RequestView {
        method: Method::Uninitialized,
        version: Version::V1_1,
        path: seq![],
        headers: Map::empty(),
        body: seq![],
    }
}

/// What one line changes: a request line sets method, path and version from
/// its first three words; a header line sets its header; any other
/// non-empty line is added to the body.
pub open spec fn read_line(r: RequestView, l: Seq<char>) -> RequestView {
    if is_request_line(l) {
        let w = words(l);
        RequestView { method: method_of(w[0]), path: w[1], version: version_of(w[2]), ..r }
    } else if is_header_line(l) {
        RequestView { headers: r.headers.insert(header_name(l), header_value(l)), ..r }
    } else if l.len() > 0 {
        RequestView { body: r.body + l, ..r }
    } else {
        r
    }
}

/// The request that a list of lines describes, read in order.
pub open spec fn read_lines(ls: Seq<Seq<char>>) -> RequestView
    decreases ls.len(),
{
    if ls.len() == 0 {
        empty_request()
    } else {
        read_line(read_lines(ls.drop_last()), ls.last())
    }
}

/// The request that the text `s` describes.
pub open spec fn read_request(s: Seq<char>) -> RequestView {
    read_lines(lines(s))
}

/// Every line of `s` that is taken for the request line has at least three
/// words: method, path and version.
pub open spec fn request_lines_complete(s: Seq<char>) -> bool {
    forall|i: int|
        0 <= i < lines(s).len() && is_request_line(#[trigger] lines(s)[i]) ==> words(lines(s)[i]).len()
            >= 3
}

/// Method, resource and version from a request line's first three words.
pub fn process_req_line(line: &[char]) -> (res: (Method, Resource, Version))
    requires
        words(line@).len() >= 3,
    ensures
        res.0 == method_of(words(line@)[0]),
        path_of(res.1) == words(line@)[1],
        res.2 == version_of(words(line@)[2]),
{
    let w = words_of(line);
    assert(views(w@)[0] == w@[0]@);
    assert(views(w@)[1] == w@[1]@);
    assert(views(w@)[2] == w@[2]@);
    let method = method_from_chars(&w[0]);
    let resource = Resource::Path(string_of(&w[1]));
    let version = version_from_chars(&w[2]);
    (method, resource, version)
}

/// Name and value of a header line.
pub fn process_header_line(line: &[char]) -> (res: (String, String))
    ensures
        res.0@ == header_name(line@),
        res.1@ == header_value(line@),
{
    let items = split_chars(line, ':');
    proof {
        crate::text::lemma_split_nonempty(line@, ':');
    }
    assert(views(items@)[0] == items@[0]@);
    let key = string_of(&items[0]);
    let value = if items.len() > 1 {
        assert(views(items@)[1] == items@[1]@);
        string_of(&items[1])
    } else {
        String::new()
    };
    (key, value)
}

impl Request {
    /// The request that `req` describes, where every line taken for the
    /// request line has method, path and version; `None` where one lacks
    /// them.
    pub fn parse(req: &str) -> (res: Option<Request>)
        ensures
            res is Some <==> request_lines_complete(req@),
            res matches Some(r) ==> r@ == read_request(req@),
    {
        let chars = chars_of(req);
        let ls = lines_of(&chars);
        let ghost lv = lines(req@);
        let http = vec!['H', 'T', 'T', 'P'];
        let colon = vec![':'];
        assert(http@ == seq!['H', 'T', 'T', 'P']);
        assert(colon@ == seq![':']);
        let mut method = Method::Uninitialized;
        let mut version = Version::V1_1;
        let mut path: String = String::new();
        let mut headers = Headers::new();
        let mut body: String = String::new();
        let mut i: usize = 0;
        while i < ls.len()
            invariant
                views(ls@) == lv,
                lv == lines(req@),
                http@ == seq!['H', 'T', 'T', 'P'],
                colon@ == seq![':'],
                i <= ls@.len(),
                (RequestView {
                    method: method,
                    version: version,
                    path: path@,
                    headers: headers@,
                    body: body@,
                }) == read_lines(lv.take(i as int)),
                forall|j: int|
                    0 <= j < i && is_request_line(#[trigger] lv[j]) ==> words(lv[j]).len() >= 3,
            decreases ls.len() - i,
        {
            let line = &ls[i];
            assert(lv[i as int] == line@);
            assert(lv.take(i + 1).drop_last() =~= lv.take(i as int));
            if contains_chars(line, &http) {
                if words_of(line).len() < 3 {
                    return None;
                }
                let (m, r, v) = process_req_line(line);
                method = m;
                version = v;
                path = match r {
                    Resource::Path(p) => p,
                };
            } else if contains_chars(line, &colon) {
                let (key, value) = process_header_line(line);
                headers.insert(key, value);
            } else if line.len() > 0 {
                push_chars(&mut body, line);
            }
            i = i + 1;
        }
        assert(lv.take(lv.len() as int) =~= lv);
        Some(
            Request {
                method,
                version,
                resource: Resource::Path(path),
                headers,
                body,
            },
        )
    }

    /// The request that `req` describes (see `parse`); every line of it
    /// taken for the request line must have method, path and version.
    pub fn from(req: String) -> (res: Request)
        requires
            request_lines_complete(req@),
        ensures
            res@ == read_request(req@),
    {
        Request::parse(req.as_str()).unwrap()
    }
}

} // verus!
