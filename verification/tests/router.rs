use http_server::{
    default_server_thread_pool_size, default_tracing_level, PageNotFoundHandler, Request,
    Response, Router, Server, StaticPageHandler, Step, WebServiceHandler,
};

fn get(path: &str) -> Request {
    Request::from(format!("GET {} HTTP/1.1\r\n\r\n", path))
}

fn sent(step: Step<'static>) -> Response<'static> {
    match step {
        Step::Send(r) => r,
        _ => panic!("expected a response"),
    }
}

fn content_type(r: &Response) -> String {
    r.headers.as_ref().unwrap().entries()[0].1.clone()
}

#[test]
fn root_reads_the_index() {
    let req = get("/");
    assert!(Router::can_route(&req));
    let step = Router::route(&req);
    assert!(matches!(step, Step::ReadIndex));
    let r = sent(Router::resume(step, Some("<h1>hi</h1>".to_owned())));
    assert_eq!(r.status_code, 200);
    assert_eq!(content_type(&r), "text/html");
    assert_eq!(r.body.as_deref(), Some("<h1>hi</h1>"));
}

#[test]
fn missing_index_is_still_ok() {
    let r = sent(Router::resume(Step::ReadIndex, None));
    assert_eq!(r.status_code, 200);
    assert_eq!(r.body, None);
}

#[test]
fn page_types_by_extension() {
    for (name, t) in [("style.css", "text/css"), ("app.js", "text/javascript"), ("page.html", "text/javascript")] {
        let step = Router::route(&get(&format!("/{}", name)));
        match &step {
            Step::ReadPage(n) => assert_eq!(n, name),
            _ => panic!("expected a page read"),
        }
        let r = sent(Router::resume(step, Some("x".to_owned())));
        assert_eq!(r.status_code, 200);
        assert_eq!(content_type(&r), t);
    }
}

#[test]
fn unknown_extension_or_missing_page_reads_not_found() {
    let step = StaticPageHandler::on_page(&"notes.txt".to_owned(), Some("x".to_owned()));
    assert!(matches!(step, Step::ReadNotFound));
    let step = StaticPageHandler::on_page(&"noext".to_owned(), Some("x".to_owned()));
    assert!(matches!(step, Step::ReadNotFound));
    let step = StaticPageHandler::on_page(&"style.css".to_owned(), None);
    assert!(matches!(step, Step::ReadNotFound));
    let r = sent(Router::resume(step, Some("gone".to_owned())));
    assert_eq!(r.status_code, 404);
    assert_eq!(r.status_text, "Not Found");
    assert_eq!(content_type(&r), "text/html");
    assert_eq!(r.body.as_deref(), Some("gone"));
}

#[test]
fn only_the_second_segment_names_the_page() {
    let step = Router::route(&get("/dir/style.css"));
    match step {
        Step::ReadPage(n) => assert_eq!(n, "dir"),
        _ => panic!("expected a page read"),
    }
}

#[test]
fn orders_are_served_as_json() {
    let step = Router::route(&get("/api/orders"));
    assert!(matches!(step, Step::LoadOrders));
    let r = sent(Router::resume(step, Some("[]".to_owned())));
    assert_eq!(r.status_code, 200);
    assert_eq!(content_type(&r), "application/json");
    assert_eq!(r.body.as_deref(), Some("[]"));
    let r = WebServiceHandler::on_orders("[1]".to_owned());
    assert_eq!(r.body.as_deref(), Some("[1]"));
}

#[test]
fn other_api_paths_are_not_found() {
    assert!(matches!(Router::route(&get("/api/users")), Step::ReadNotFound));
    assert!(matches!(WebServiceHandler::handle(&get("/api/orders/")), Step::LoadOrders));
}

#[test]
fn non_get_requests_are_not_found() {
    let req = Request::from("POST /api/orders HTTP/1.1\r\n\r\n".to_owned());
    assert!(matches!(Router::route(&req), Step::ReadNotFound));
    let req = Request::from("body only".to_owned());
    assert!(Router::can_route(&req));
    assert!(matches!(Router::route(&req), Step::ReadNotFound));
}

#[test]
fn unroutable_paths_are_detected() {
    assert!(!Router::can_route(&get("*")));
    assert!(!Router::can_route(&get("/api")));
    assert!(Router::can_route(&get("/api/")));
}

#[test]
fn not_found_handler_answers_404() {
    let r = PageNotFoundHandler::handle(None);
    assert_eq!(r.status_code, 404);
    assert_eq!(r.body, None);
    assert_eq!(
        r.to_http_string(),
        "HTTP/1.1 404 Not Found\r\nContent-Type:text/html\r\nContent-Length: 0\r\n\r\n"
    );
}

#[test]
fn static_handler_reads_index_for_empty_segment() {
    assert!(matches!(StaticPageHandler::handle(&get("/")), Step::ReadIndex));
    assert!(matches!(StaticPageHandler::handle(&get("//x")), Step::ReadIndex));
}

#[test]
fn server_settings() {
    let addr = "127.0.0.1:3000".to_owned();
    let server = Server::new(&addr, 8);
    assert_eq!(server.addr(), &addr);
    assert_eq!(server.thread_pool_size(), 8);
    assert_eq!(default_server_thread_pool_size(), 4);
    assert_eq!(default_tracing_level(), "info");
}
