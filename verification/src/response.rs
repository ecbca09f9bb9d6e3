//! HTTP responses: status, headers and body, and the text that carries them
//! to the client.

use vstd::prelude::*;
use vstd::utf8::encode_utf8;

use crate::headers::Headers;
use crate::text::{chars_of, push_char, push_chars};

verus! {

/// A response to a request.
#[derive(Debug, PartialEq)]
pub struct Response<'res> {
    pub version: &'res str,
    pub status_code: u16,
    pub status_text: &'res str,
    pub headers: Option<Headers>,
    pub body: Option<String>,
}

/// The reason phrase that goes with a status code: 200, 400 and 500 have
/// their own; every other code is answered as not found.
pub open spec fn status_text_of(code: u16) -> Seq<char> {
    if code == 200 {
        "OK"@
    } else if code == 400 {
        "Bad Request"@
    } else if code == 500 {
        "Internal Server Error"@
    } else {
        "Not Found"@
    }
}

/// The headers that a response has where none are given: content type
/// `text/html`.
pub open spec fn default_header_pairs() -> Seq<(Seq<char>, Seq<char>)> {
    seq![("Content-Type"@, "text/html"@)]
}

/// The decimal digit for `d` below ten.
pub open spec fn digit(d: nat) -> char {
    if d == 0 {
        '0'
    } else if d == 1 {
        '1'
    } else if d == 2 {
        '2'
    } else if d == 3 {
        '3'
    } else if d == 4 {
        '4'
    } else if d == 5 {
        '5'
    } else if d == 6 {
        '6'
    } else if d == 7 {
        '7'
    } else if d == 8 {
        '8'
    } else {
        '9'
    }
}

/// `n` written in decimal, without leading zeros.
pub open spec fn decimal(n: nat) -> Seq<char>
    decreases n,
{
    if n < 10 {
        seq![digit(n)]
    } else {
        decimal(n / 10).push(digit(n % 10))
    }
}

/// The header lines: `name:value` and CR LF for each pair, in order.
pub open spec fn headers_text(p: Seq<(Seq<char>, Seq<char>)>) -> Seq<char>
    decreases p.len(),
{
    if p.len() == 0 {
        seq![]
    } else {
        headers_text(p.drop_last()) + p.last().0 + seq![':'] + p.last().1 + seq!['\r', '\n']
    }
}

/// The characters of an optional body; none where there is no body.
pub open spec fn body_chars(body: Option<String>) -> Seq<char> {
    match body {
        Some(b) => b@,
        None => seq![],
    }
}

/// The text of a response: status line, header lines, a `Content-Length`
/// line with the body's length in UTF-8 bytes, an empty line, the body.
pub open spec fn response_text(r: Response) -> Seq<char> {
    let b = body_chars(r.body);
    r.version@ + seq![' '] + decimal(r.status_code as nat) + seq![' '] + r.status_text@ + seq![
        '\r',
        '\n',
    ] + headers_text(r.headers.unwrap().pairs()) + "Content-Length: "@ + decimal(
        encode_utf8(b).len(),
    ) + seq!['\r', '\n', '\r', '\n'] + b
}

/// Appends `n` in decimal to `s`.
fn push_decimal(s: &mut String, n: u64)
    ensures
        final(s)@ == old(s)@ + decimal(n as nat),
    decreases n,
{
    if n >= 10 {
        push_decimal(s, n / 10);
    }
    let d = n % 10;
    let c = if d == 0 {
        '0'
    } else if d == 1 {
        '1'
    } else if d == 2 {
        '2'
    } else if d == 3 {
        '3'
    } else if d == 4 {
        '4'
    } else if d == 5 {
        '5'
    } else if d == 6 {
        '6'
    } else if d == 7 {
        '7'
    } else if d == 8 {
        '8'
    } else {
        '9'
    };
    push_char(s, c);
    assert(final(s)@ =~= old(s)@ + decimal(n as nat));
}

/// Appends the characters of `t` to `s`.
fn push_str(s: &mut String, t: &str)
    ensures
        final(s)@ == old(s)@ + t@,
{
    let v = chars_of(t);
    push_chars(s, &v);
}

impl<'res> Default for Response<'res> {
    fn default() -> (res: Self)
        ensures
            res.version@ == "HTTP/1.1"@,
            res.status_code == 200,
            res.status_text@ == "OK"@,
            res.headers is None,
            res.body is None,
    {
        Response { version: "HTTP/1.1", status_code: 200, status_text: "OK", headers: None, body: None }
    }
}

impl<'res> Response<'res> {
    /// A response with the given status, headers and body: version
    /// `HTTP/1.1`, the reason phrase that goes with the status, and content
    /// type `text/html` where no headers are given.
    #[must_use]
    pub fn new(status_code: u16, headers: Option<Headers>, body: Option<String>) -> (res: Self)
        ensures
            res.version@ == "HTTP/1.1"@,
            res.status_code == status_code,
            res.status_text@ == status_text_of(status_code),
            match headers {
                Some(h) => res.headers == Some(h),
                None => res.headers matches Some(d) && d.pairs() == default_header_pairs(),
            },
            res.body == body,
    {
        let mut response = Self::default();
        if status_code != 200 {
            response.status_code = status_code;
        }
        response.headers = match headers {
            Some(h) => Some(h),
            None => {
                let mut h = Headers::new();
                h.insert("Content-Type".to_owned(), "text/html".to_owned());
                Some(h)
            },
        };
        response.status_text = match response.status_code {
            200 => "OK",
            400 => "Bad Request",
            500 => "Internal Server Error",
            _ => "Not Found",
        };
        response.body = body;
        response
    }

    fn version(&self) -> (res: &str)
        ensures
            res@ == self.version@,
    {
        self.version
    }

    fn status_code(&self) -> (res: u16)
        ensures
            res == self.status_code,
    {
        self.status_code
    }

    fn status_text(&self) -> (res: &str)
        ensures
            res@ == self.status_text@,
    {
        self.status_text
    }

    /// The header lines (see `headers_text`).
    fn headers(&self) -> (res: String)
        requires
            self.headers is Some,
        ensures
            res@ == headers_text(self.headers.unwrap().pairs()),
    {
        let map = match &self.headers {
            Some(h) => h,
            None => {
                assert(false);
                return String::new();
            },
        };
        let entries = map.entries();
        let ghost p = map.pairs();
        let mut header_string = String::new();
        let mut i: usize = 0;
        while i < entries.len()
            invariant
                entries@.map_values(|e: (String, String)| (e.0@, e.1@)) == p,
                i <= entries@.len(),
                header_string@ == headers_text(p.take(i as int)),
            decreases entries.len() - i,
        {
            let ghost before = header_string@;
            assert(p[i as int] == (entries@[i as int].0@, entries@[i as int].1@));
            push_str(&mut header_string, entries[i].0.as_str());
            push_char(&mut header_string, ':');
            push_str(&mut header_string, entries[i].1.as_str());
            push_char(&mut header_string, '\r');
            push_char(&mut header_string, '\n');
            assert(p.take(i + 1).drop_last() =~= p.take(i as int));
            assert(header_string@ =~= headers_text(p.take(i + 1)));
            i = i + 1;
        }
        assert(p.take(entries.len() as int) =~= p);
        header_string
    }

    fn body(&self) -> (res: &str)
        ensures
            res@ == body_chars(self.body),
    {
        match &self.body {
            Some(b) => b.as_str(),
            None => {
                proof {
                    reveal_strlit("");
                }
                ""
            },
        }
    }

    /// The text of the response (see `response_text`).
    pub fn to_http_string(&self) -> (res: String)
        requires
            self.headers is Some,
        ensures
            res@ == response_text(*self),
    {
        let mut res = String::new();
        push_str(&mut res, self.version());
        push_char(&mut res, ' ');
        push_decimal(&mut res, self.status_code() as u64);
        push_char(&mut res, ' ');
        push_str(&mut res, self.status_text());
        push_char(&mut res, '\r');
        push_char(&mut res, '\n');
        let headers = self.headers();
        push_str(&mut res, headers.as_str());
        push_str(&mut res, "Content-Length: ");
        let body = self.body();
        let body_len = body.as_bytes().len();
        push_decimal(&mut res, body_len as u64);
        push_char(&mut res, '\r');
        push_char(&mut res, '\n');
        push_char(&mut res, '\r');
        push_char(&mut res, '\n');
        push_str(&mut res, body);
        assert(res@ =~= response_text(*self));
        res
    }

    /// Writes the response's text, encoded in UTF-8, to the end of `stream`.
    pub fn send_response(self, stream: &mut Vec<u8>)
        requires
            self.headers is Some,
        ensures
            final(stream)@ == old(stream)@ + encode_utf8(response_text(self)),
    {
        let res = self.to_http_string();
        let bytes = res.as_str().as_bytes();
        let ghost start = stream@;
        let mut i: usize = 0;
        while i < bytes.len()
            invariant
                i <= bytes@.len(),
                bytes@ == encode_utf8(response_text(self)),
                stream@ == start + bytes@.take(i as int),
            decreases bytes.len() - i,
        {
            stream.push(bytes[i]);
            i = i + 1;
            assert(stream@ =~= start + bytes@.take(i as int));
        }
        assert(bytes@.take(bytes@.len() as int) =~= bytes@);
    }
}

} // verus!
