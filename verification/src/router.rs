//! Routing: which handler answers a request, and the steps by which it is
//! answered. Reading public files and loading the orders are outside work;
//! the functions here decide, from a request and what that work returned,
//! what to do next.

use vstd::prelude::*;

use crate::headers::Headers;
use crate::request::{Method, Request, RequestView};
use crate::response::{status_text_of, Response};
use crate::text::{chars_eq, chars_of, split, split_chars, string_of, views};

verus! {

/// The next thing to do to answer a request.
pub enum Step<'res> {
    /// Read the public file `index.html` and hand its contents back.
    ReadIndex,
    /// Read the public file of this name and hand its contents back.
    ReadPage(String),
    /// Read the public file `404.html` and hand its contents back.
    ReadNotFound,
    /// Load the orders and hand back their JSON text.
    LoadOrders,
    /// Send this response; the request is answered.
    Send(Response<'res>),
}

/// How many more pieces of outside work a step can lead to before the
/// response is sent.
pub open spec fn reads_left(s: Step) -> nat {
    match s {
        Step::Send(_) => 0,
        Step::ReadPage(_) => 2,
        _ => 1,
    }
}

/// The segments of a path between slashes: `/a/b` has `""`, `"a"`, `"b"`.
pub open spec fn segments(path: Seq<char>) -> Seq<Seq<char>> {
    split(path, '/')
}

/// A request that can be routed: a `GET` request's path has a second
/// segment, and a third one where the second is `api`.
pub open spec fn routable(r: RequestView) -> bool {
    r.method == Method::Get ==> {
        &&& segments(r.path).len() >= 2
        &&& segments(r.path)[1] == "api"@ ==> segments(r.path).len() >= 3
    }
}

/// The optional text of an optional string.
pub open spec fn opt_view(o: Option<String>) -> Option<Seq<char>> {
    match o {
        Some(s) => Some(s@),
        None => None,
    }
}

/// `r` is the response that `Response::new` builds from `code`, headers
/// with these pairs, and `body`.
pub open spec fn is_response(
    r: Response,
    code: u16,
    pairs: Seq<(Seq<char>, Seq<char>)>,
    body: Option<Seq<char>>,
) -> bool {
    &&& r.version@ == "HTTP/1.1"@
    &&& r.status_code == code
    &&& r.status_text@ == status_text_of(code)
    &&& r.headers matches Some(h) && h.pairs() == pairs
    &&& opt_view(r.body) == body
}

/// `s` sends the response that `Response::new` builds from `code`, headers
/// with these pairs, and `body`.
pub open spec fn sends(
    s: Step,
    code: u16,
    pairs: Seq<(Seq<char>, Seq<char>)>,
    body: Option<Seq<char>>,
) -> bool {
    s matches Step::Send(r) && is_response(r, code, pairs, body)
}

/// `s` reads the public file of this name.
pub open spec fn reads_page(s: Step, name: Seq<char>) -> bool {
    s matches Step::ReadPage(n) && n@ == name
}

/// A single `Content-Type` header.
pub open spec fn content_type(t: Seq<char>) -> Seq<(Seq<char>, Seq<char>)> {
    seq![("Content-Type"@, t)]
}

/// The extension of a file name: what follows its last dot, or the whole
/// name where it has none.
pub open spec fn extension(name: Seq<char>) -> Seq<char> {
    split(name, '.').last()
}

/// The content type that a public file is served with, by its extension;
/// `None` for an extension that is not served.
pub open spec fn page_type(name: Seq<char>) -> Option<Seq<char>> {
    let e = extension(name);
    if e == "css"@ {
        Some("text/css"@)
    } else if e == "js"@ {
        Some("text/javascript"@)
    } else if e == "html"@ {
        Some("text/javascript"@)
    } else {
        None
    }
}

/// Headers with a single `Content-Type` of `t`.
fn content_type_headers(t: &str) -> (res: Headers)
    ensures
        res.pairs() == content_type(t@),
{
    let mut h = Headers::new();
    h.insert("Content-Type".to_owned(), t.to_owned());
    h
}

/// The segment at `k` of the path of `req`.
fn segment(req: &Request, k: usize) -> (res: Vec<char>)
    requires
        k < segments(req@.path).len(),
    ensures
        res@ == segments(req@.path)[k as int],
{
    let path = match &req.resource {
        crate::request::Resource::Path(p) => p,
    };
    let route = split_chars(&chars_of(path.as_str()), '/');
    assert(views(route@)[k as int] == route@[k as int]@);
    copy_vec(&route[k])
}

fn copy_vec(v: &Vec<char>) -> (res: Vec<char>)
    ensures
        res@ == v@,
{
    let res = crate::text::copy_range(v, 0, v.len());
    assert(res@ =~= v@);
    res
}

/// Answers requests for a page that is not there.
pub struct PageNotFoundHandler;

impl PageNotFoundHandler {
    /// Status 404, content type `text/html`, and the not-found page as body.
    pub fn handle<'res>(page: Option<String>) -> (res: Response<'res>)
        ensures
            is_response(res, 404, content_type("text/html"@), opt_view(page)),
    {
        Response::new(404, None, page)
    }
}

/// Answers requests for public files.
pub struct StaticPageHandler;

impl StaticPageHandler {
    /// What to read for a request: `index.html` where the second path
    /// segment is empty, else the file that segment names.
    pub fn handle<'res>(req: &Request) -> (res: Step<'res>)
        requires
            segments(req@.path).len() >= 2,
        ensures
            segments(req@.path)[1] == ""@ ==> res is ReadIndex,
            segments(req@.path)[1] != ""@ ==> reads_page(res, segments(req@.path)[1]),
    {
        let name = segment(req, 1);
        if chars_eq(&name, &chars_of("")) {
            Step::ReadIndex
        } else {
            Step::ReadPage(string_of(&name))
        }
    }

    /// The answer once `index.html` has been read: status 200, content
    /// type `text/html`, its contents as body.
    pub fn on_index<'res>(contents: Option<String>) -> (res: Response<'res>)
        ensures
            is_response(res, 200, content_type("text/html"@), opt_view(contents)),
    {
        Response::new(200, None, contents)
    }

    /// The step once the file `name` has been read: where it was read and
    /// its extension is served, status 200 with its content type and its
    /// contents; otherwise read the not-found page.
    pub fn on_page<'res>(name: &String, contents: Option<String>) -> (res: Step<'res>)
        ensures
            match (contents, page_type(name@)) {
                (Some(c), Some(t)) => sends(res,
                    200,
                    content_type(t),
                    Some(c@),
                ),
                _ => res is ReadNotFound,
            },
    {
        match contents {
            Some(c) => {
                let pieces = split_chars(&chars_of(name.as_str()), '.');
                proof {
                    crate::text::lemma_split_nonempty(name@, '.');
                }
                let last = pieces.len() - 1;
                assert(views(pieces@)[last as int] == pieces@[last as int]@);
                let ext = &pieces[last];
                let t = if chars_eq(ext, &chars_of("css")) {
                    "text/css"
                } else if chars_eq(ext, &chars_of("js")) {
                    "text/javascript"
                } else if chars_eq(ext, &chars_of("html")) {
                    "text/javascript"
                } else {
                    return Step::ReadNotFound;
                };
                let headers = content_type_headers(t);
                Step::Send(Response::new(200, Some(headers), Some(c)))
            },
            None => Step::ReadNotFound,
        }
    }
}

/// Answers requests to the web service under `/api`.
pub struct WebServiceHandler;

impl WebServiceHandler {
    /// What to do for a request: load the orders where the third path
    /// segment is `orders`, else read the not-found page.
    pub fn handle<'res>(req: &Request) -> (res: Step<'res>)
        requires
            segments(req@.path).len() >= 3,
        ensures
            segments(req@.path)[2] == "orders"@ ==> res is LoadOrders,
            segments(req@.path)[2] != "orders"@ ==> res is ReadNotFound,
    {
        let part = segment(req, 2);
        if chars_eq(&part, &chars_of("orders")) {
            Step::LoadOrders
        } else {
            Step::ReadNotFound
        }
    }

    /// The answer once the orders are loaded: status 200, content type
    /// `application/json`, the orders' JSON text as body.
    pub fn on_orders<'res>(json: String) -> (res: Response<'res>)
        ensures
            is_response(res, 200, content_type("application/json"@), Some(json@)),
    {
        let headers = content_type_headers("application/json");
        Response::new(200, Some(headers), Some(json))
    }
}

/// Chooses the handler for a request and carries its steps forward.
pub struct Router;

impl Router {
    /// The first step for a request: a `GET` request goes to the web
    /// service where its second path segment is `api`, else to the public
    /// files; any other request is answered as not found.
    pub fn route<'res>(req: &Request) -> (res: Step<'res>)
        requires
            routable(req@),
        ensures
            reads_left(res) <= 2,
            req.method != Method::Get ==> res is ReadNotFound,
            req.method == Method::Get && segments(req@.path)[1] == "api"@ ==> {
                &&& segments(req@.path)[2] == "orders"@ ==> res is LoadOrders
                &&& segments(req@.path)[2] != "orders"@ ==> res is ReadNotFound
            },
            req.method == Method::Get && segments(req@.path)[1] == ""@ ==> res is ReadIndex,
            req.method == Method::Get && segments(req@.path)[1] != "api"@ && segments(req@.path)[1]
                != ""@ ==> reads_page(res, segments(req@.path)[1]),
    {
        match req.method {
            Method::Get => {
                proof {
                    reveal_strlit("");
                    reveal_strlit("api");
                    assert("api"@.len() != ""@.len());
                }
                let first = segment(req, 1);
                if chars_eq(&first, &chars_of("api")) {
                    WebServiceHandler::handle(req)
                } else {
                    StaticPageHandler::handle(req)
                }
            },
            _ => Step::ReadNotFound,
        }
    }

    /// The step after the outside work that `step` asked for returned
    /// `input`: the contents of the file read (`None` where it could not be
    /// read), or the orders' JSON text.
    pub fn resume<'res>(step: Step<'res>, input: Option<String>) -> (res: Step<'res>)
        requires
            !(step is Send),
            step is LoadOrders ==> input is Some,
        ensures
            reads_left(res) < reads_left(step),
            step is ReadIndex ==> sends(res,
                200,
                content_type("text/html"@),
                opt_view(input),
            ),
            step is ReadNotFound ==> sends(res,
                404,
                content_type("text/html"@),
                opt_view(input),
            ),
            step is LoadOrders ==> sends(res,
                200,
                content_type("application/json"@),
                opt_view(input),
            ),
            step matches Step::ReadPage(name) ==> match (input, page_type(name@)) {
                (Some(c), Some(t)) => sends(res,
                    200,
                    content_type(t),
                    Some(c@),
                ),
                _ => res is ReadNotFound,
            },
    {
        match step {
            Step::ReadIndex => Step::Send(StaticPageHandler::on_index(input)),
            Step::ReadPage(name) => StaticPageHandler::on_page(&name, input),
            Step::ReadNotFound => Step::Send(PageNotFoundHandler::handle(input)),
            Step::LoadOrders => match input {
                Some(json) => Step::Send(WebServiceHandler::on_orders(json)),
                None => {
                    assert(false);
                    Step::ReadNotFound
                },
            },
            Step::Send(r) => {
                assert(false);
                Step::Send(r)
            },
        }
    }

    /// Whether a request can be routed (see `routable`).
    pub fn can_route(req: &Request) -> (res: bool)
        ensures
            res == routable(req@),
    {
        match req.method {
            Method::Get => {
                let path = match &req.resource {
                    crate::request::Resource::Path(p) => p,
                };
                let route = split_chars(&chars_of(path.as_str()), '/');
                if route.len() < 2 {
                    return false;
                }
                assert(views(route@)[1] == route@[1]@);
                if chars_eq(&route[1], &chars_of("api")) {
                    route.len() >= 3
                } else {
                    true
                }
            },
            _ => true,
        }
    }
}

} // verus!
