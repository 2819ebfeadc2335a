use http_server::http::request::HttpRequest;
use http_server::http::response::HttpResponse;
use http_server::http::status::StatusCode;
use http_server::router::Router;
use http_server::runtime::executor::{Executor, RunStep};
use http_server::runtime::reactor::{event_fd, EpollOp, Interest, Registry};
use http_server::runtime::tcp::after_write;
use http_server::server::{
    about_handler, admit_connection, classify_read, echo_handler, request_from_bytes, respond,
    too_large_response, ReadOutcome, MAX_CONNECTIONS, MAX_REQUEST_SIZE,
};
use http_server::static_files::{content_type_for_extension, infer_content_type, StaticFiles};

type Handler = fn(HttpRequest) -> HttpResponse;

fn req(raw: &str) -> HttpRequest {
    HttpRequest::parse(raw).ok().unwrap()
}

fn teapot(_r: HttpRequest) -> HttpResponse {
    HttpResponse::ok(b"first".to_vec(), "text/plain")
}

fn second(_r: HttpRequest) -> HttpResponse {
    HttpResponse::ok(b"second".to_vec(), "text/plain")
}

fn app_router() -> Router<Handler> {
    Router::<Handler>::new()
        .get("/about", about_handler)
        .post("/echo", echo_handler)
        .put("/t", teapot)
        .delete("/t", second)
}

#[test]
fn router_dispatches_by_method_and_path() {
    let r = app_router();
    let about = r.handle(req("GET /about HTTP/1.1\r\n\r\n"));
    assert_eq!(about.body, Some(b"<h1>About page</h1>".to_vec()));
    assert_eq!(about.headers.get("Content-Type").map(|s| s.as_str()), Some("text/html"));
    let echo = r.handle(req("POST /echo HTTP/1.1\r\n\r\nping"));
    assert_eq!(echo.body, Some(b"ping".to_vec()));
    let put = r.handle(req("PUT /t HTTP/1.1\r\n\r\n"));
    assert_eq!(put.body, Some(b"first".to_vec()));
    let del = r.handle(req("DELETE /t HTTP/1.1\r\n\r\n"));
    assert_eq!(del.body, Some(b"second".to_vec()));
}

#[test]
fn router_answers_not_found_otherwise() {
    let r = app_router();
    let wrong_method = r.handle(req("POST /about HTTP/1.1\r\n\r\n"));
    assert_eq!(wrong_method.status, StatusCode::NotFound);
    let wrong_path = r.handle(req("GET /nope HTTP/1.1\r\n\r\n"));
    assert_eq!(wrong_path.to_bytes(), HttpResponse::not_found().to_bytes());
    let unknown = r.handle(req("BREW /about HTTP/1.1\r\n\r\n"));
    assert_eq!(unknown.status, StatusCode::NotFound);
    let empty: Router<Handler> = Router::new();
    assert_eq!(empty.handle(req("GET / HTTP/1.1\r\n\r\n")).status, StatusCode::NotFound);
}

#[test]
fn router_earlier_route_wins() {
    let r = Router::<Handler>::new().get("/x", teapot).get("/x", second);
    assert_eq!(r.handle(req("GET /x HTTP/1.1\r\n\r\n")).body, Some(b"first".to_vec()));
    let m = http_server::http::request::Method::Get;
    assert_eq!(r.find_route(&m, &"/x".to_string()), Some(0));
    assert_eq!(r.find_route(&m, &"/y".to_string()), None);
}

#[test]
fn echo_without_body() {
    let resp = echo_handler(req("POST /echo HTTP/1.1\r\n\r\n"));
    assert_eq!(resp.body, Some(b"(no body)".to_vec()));
    assert_eq!(resp.headers.get("Content-Length").map(|s| s.as_str()), Some("9"));
}

#[test]
fn executor_ids_and_steps() {
    let mut e: Executor<&str> = Executor::new();
    assert_eq!(e.next_step(&vec![]), RunStep::Exit);
    let a = e.spawn("a");
    let b = e.spawn("b");
    assert_eq!((a, b), (0, 1));
    assert_eq!(e.next_id(), 2);
    assert_eq!(e.len(), 2);
    assert_eq!(e.next_step(&vec![]), RunStep::Park);
    assert_eq!(e.next_step(&vec![0]), RunStep::Poll);
    assert_eq!(e.take(0), Some("a"));
    assert_eq!(e.take(0), None);
    e.restore(0, "a");
    assert_eq!(e.len(), 2);
    assert_eq!(e.take(1), Some("b"));
    assert_eq!(e.take(0), Some("a"));
    assert!(e.is_empty());
    assert_eq!(e.next_step(&vec![0, 1]), RunStep::Poll);
    assert_eq!(e.next_step(&vec![]), RunStep::Exit);
    assert_eq!(e.spawn("c"), 2);
}

#[test]
fn registry_ops_and_lookup() {
    let mut r: Registry<u32> = Registry::new();
    assert_eq!(r.register(5, Interest::Readable, 10), EpollOp::Add);
    assert_eq!(r.register(5, Interest::Writable, 11), EpollOp::Modify);
    assert_eq!(r.register(5, Interest::Readable, 12), EpollOp::Modify);
    assert_eq!(r.register(6, Interest::Readable, 13), EpollOp::Add);
    assert_eq!(r.get(5, Interest::Readable), Some(&12));
    assert_eq!(r.get(5, Interest::Writable), Some(&11));
    assert_eq!(r.get(7, Interest::Readable), None);
    assert_eq!(r.deregister(5), EpollOp::Remove);
    assert_eq!(r.get(5, Interest::Readable), None);
    assert_eq!(r.get(5, Interest::Writable), None);
    assert_eq!(r.get(6, Interest::Readable), Some(&13));
    assert_eq!(r.register(5, Interest::Writable, 14), EpollOp::Add);
}

#[test]
fn epoll_constants_come_from_libc() {
    assert_eq!(Interest::Readable.to_epoll_events(), libc::EPOLLIN as u32);
    assert_eq!(Interest::Writable.to_epoll_events(), libc::EPOLLOUT as u32);
    assert_eq!(EpollOp::Add.ctl_code(), libc::EPOLL_CTL_ADD);
    assert_eq!(EpollOp::Modify.ctl_code(), libc::EPOLL_CTL_MOD);
    assert_eq!(EpollOp::Remove.ctl_code(), libc::EPOLL_CTL_DEL);
}

#[test]
fn event_fd_takes_low_bits() {
    assert_eq!(event_fd(7), 7);
    assert_eq!(event_fd((1u64 << 32) | 9), 9);
}

#[test]
fn write_progress() {
    assert_eq!(after_write(0, 3, 10), (3, false));
    assert_eq!(after_write(3, 7, 10), (10, true));
    assert_eq!(after_write(0, 0, 0), (0, true));
}

#[test]
fn static_relative_paths() {
    assert_eq!(StaticFiles::relative_path("/"), "index.html");
    assert_eq!(StaticFiles::relative_path(""), "index.html");
    assert_eq!(StaticFiles::relative_path("///a/b.css"), "a/b.css");
    assert_eq!(StaticFiles::relative_path("x"), "x");
    let s = StaticFiles::new("./static");
    assert_eq!(s.root(), "./static");
    assert_eq!(s.candidate_path("/"), "./static/index.html");
    assert_eq!(s.candidate_path("//img/a.png"), "./static/img/a.png");
}

#[test]
fn static_confine() {
    assert_eq!(StaticFiles::confine("/srv/www", "/srv/www/a.html"), Some("/srv/www/a.html".to_string()));
    assert_eq!(StaticFiles::confine("/srv/www", "/srv/www"), Some("/srv/www".to_string()));
    assert_eq!(StaticFiles::confine("/srv/www", "/srv/wwwx/a"), None);
    assert_eq!(StaticFiles::confine("/srv/www", "/etc/passwd"), None);
}

#[test]
fn content_types() {
    assert_eq!(infer_content_type("/srv/www/index.html"), "text/html; charset=utf-8");
    assert_eq!(infer_content_type("/srv/www/a.htm"), "text/html; charset=utf-8");
    assert_eq!(infer_content_type("/a/b.tar.gz"), "application/octet-stream");
    assert_eq!(infer_content_type("/a/photo.jpeg"), "image/jpeg");
    assert_eq!(infer_content_type("/a/.hidden"), "application/octet-stream");
    assert_eq!(infer_content_type("/a/noext"), "application/octet-stream");
    assert_eq!(infer_content_type("/a/font.woff2"), "font/woff2");
    assert_eq!(content_type_for_extension(Some("js")), "application/javascript");
    assert_eq!(content_type_for_extension(Some("JSON")), "application/octet-stream");
    assert_eq!(content_type_for_extension(None), "application/octet-stream");
    for (e, t) in [("css", "text/css; charset=utf-8"), ("json", "application/json"), ("txt", "text/plain; charset=utf-8"),
        ("xml", "application/xml"), ("csv", "text/csv"), ("png", "image/png"), ("jpg", "image/jpeg"), ("gif", "image/gif"),
        ("svg", "image/svg+xml"), ("ico", "image/x-icon"), ("webp", "image/webp"), ("woff", "font/woff"), ("ttf", "font/ttf"),
        ("mp3", "audio/mpeg"), ("mp4", "video/mp4"), ("webm", "video/webm")] {
        assert_eq!(content_type_for_extension(Some(e)), t);
    }
}

#[test]
fn connection_decisions() {
    assert_eq!(classify_read(0), ReadOutcome::Closed);
    assert_eq!(classify_read(MAX_REQUEST_SIZE), ReadOutcome::TooLarge);
    assert_eq!(classify_read(10), ReadOutcome::Request);
    assert_eq!(MAX_REQUEST_SIZE, 8192);
    assert!(admit_connection(0));
    assert!(admit_connection(MAX_CONNECTIONS - 1));
    assert!(!admit_connection(MAX_CONNECTIONS));
    assert_eq!(
        too_large_response().to_bytes(),
        b"HTTP/1.1 400 Bad Request\r\nContent-Type: text/plain\r\nContent-Length: 21\r\n\r\n400 Request Too Large".to_vec()
    );
}

#[test]
fn request_from_invalid_utf8() {
    let mut bytes = b"GET /a".to_vec();
    bytes.push(0xff);
    bytes.extend_from_slice(b" HTTP/1.1\r\n\r\n");
    let r = request_from_bytes(&bytes).ok().unwrap();
    assert_eq!(r.path, "/a\u{fffd}");
    assert!(request_from_bytes(b"").is_err());
}

#[test]
fn respond_combines_steps() {
    let router = app_router();
    let parse_error = respond(&router, HttpRequest::parse(""), None);
    assert_eq!(parse_error.status, StatusCode::InternalServerError);
    let hit = respond(&router, HttpRequest::parse("GET /about HTTP/1.1\r\n\r\n"), Some(HttpResponse::ok(b"file".to_vec(), "text/plain")));
    assert_eq!(hit.body, Some(b"file".to_vec()));
    let routed = respond(&router, HttpRequest::parse("GET /about HTTP/1.1\r\n\r\n"), None);
    assert_eq!(routed.body, Some(b"<h1>About page</h1>".to_vec()));
}

#[test]
fn event_wakes_registered_wakers_for_mask() {
    let mut r: Registry<u32> = Registry::new();
    r.register(5, Interest::Readable, 10);
    r.register(5, Interest::Writable, 11);
    r.register(6, Interest::Writable, 12);
    assert_eq!(r.wakers_for_event(5, 1), vec![&10]);
    assert_eq!(r.wakers_for_event(5, 4), vec![&11]);
    assert_eq!(r.wakers_for_event(5, 5), vec![&10, &11]);
    assert_eq!(r.wakers_for_event(5, 0x10), Vec::<&u32>::new());
    assert_eq!(r.wakers_for_event(6, 5), vec![&12]);
    assert_eq!(r.wakers_for_event(7, 5), Vec::<&u32>::new());
    assert_eq!(r.wakers_for_event((1u64 << 32) | 5, 1), vec![&10]);
}

#[test]
fn candidate_path_joins_like_path_join() {
    assert_eq!(StaticFiles::new("/srv/").candidate_path("/a.html"), "/srv/a.html");
    assert_eq!(StaticFiles::new("/srv").candidate_path("a.html"), "/srv/a.html");
    assert_eq!(StaticFiles::new("").candidate_path("/a.html"), "a.html");
    for (root, p) in [("/srv", "/x/y"), ("rel/dir/", ""), ("", "")] {
        let expected = std::path::Path::new(root).join(StaticFiles::relative_path(p));
        assert_eq!(StaticFiles::new(root).candidate_path(p), expected.to_str().unwrap());
    }
}

#[test]
fn finished_task_not_found_again_and_pending_kept() {
    let mut e: Executor<&str> = Executor::new();
    let a = e.spawn("a");
    let b = e.spawn("b");
    assert_eq!(e.take(a), Some("a"));
    let c = e.spawn("c");
    assert_ne!(c, a);
    assert_eq!(e.take(a), None);
    assert_eq!(e.take(b), Some("b"));
    e.restore(b, "b");
    e.spawn("d");
    assert_eq!(e.take(b), Some("b"));
    e.after_poll(b, "b", false);
    assert_eq!(e.take(b), Some("b"));
    e.after_poll(b, "b", true);
    e.spawn("e");
    assert_eq!(e.take(b), None);
}

#[test]
fn write_all_in_steps_sends_everything() {
    let data = b"hello world";
    let mut sent = Vec::new();
    let mut written = 0;
    for n in [3usize, 0, 5, 3] {
        sent.extend_from_slice(&data[written..written + n]);
        let (now, done) = after_write(written, n, data.len());
        written = now;
        assert_eq!(done, written == data.len());
    }
    assert_eq!(sent, data.to_vec());
}
