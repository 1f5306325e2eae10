//! The pipeline stages: routing order and capture, authentication
//! pre-emption, content negotiation, parameter precedence, the bounded pool
//! bookkeeping, and one whole request flowing through a composed
//! application.
use jbhttp::auth::{AuthError, Authenticator};
use jbhttp::content::{BytesCodec, MediaTypeSerializer};
use jbhttp::content::mediatypes::{ApplicationJson, TextPlain};
use jbhttp::filter::ErrorFilter;
use jbhttp::handler::{FnHandler, Handled, Handler, Res};
use jbhttp::request::{Method, Param, Params, Request};
use jbhttp::response::Response;
use jbhttp::router::Router;
use jbhttp::runner::threadpool::PoolState;
use jbhttp::server::stream::StreamServer;

fn bare_request(path: &str) -> Request<Vec<u8>> {
    Request {
        method: Method::GET,
        path: path.to_string(),
        query: String::new(),
        fragment: String::new(),
        headers: Vec::new(),
        payload: None,
        content_length: 0,
        params: Params::new(),
    }
}

type RawHandled = Handled<Vec<u8>, Vec<u8>, u32>;

fn echo_param_handler() -> FnHandler<
    Vec<u8>,
    Vec<u8>,
    Vec<u8>,
    u32,
    impl Fn(Request<Vec<u8>>, u32) -> RawHandled,
> {
    FnHandler::new(|req: Request<Vec<u8>>, ctx: u32| -> RawHandled {
        let body = match req.params.get_any("x") {
            Some(v) => v.into_bytes(),
            None => b"none".to_vec(),
        };
        (Ok(Response::new(200).with_payload(body)), ctx + 1)
    })
}

#[test]
fn test_router_order_is_absolute() {
    let router = Router::new()
        .with_route("/a/?x", echo_param_handler())
        .with_route("/a/*", echo_param_handler());
    let (res, _) = router.handle(bare_request("/a/foo"), 0u32);
    let resp = res.unwrap();
    assert_eq!(resp.payload, Some(b"foo".to_vec()));

    let router = Router::new()
        .with_route("/a/*", echo_param_handler())
        .with_route("/a/?x", echo_param_handler());
    let (res, _) = router.handle(bare_request("/a/foo"), 0u32);
    let resp = res.unwrap();
    assert_eq!(resp.payload, Some(b"none".to_vec()));
}

#[test]
fn test_router_no_match_is_404() {
    let router = Router::new().with_route("/a/?x", echo_param_handler());
    let (res, ctx) = router.handle(bare_request("/b"), 7u32);
    let resp = res.unwrap_err();
    assert_eq!(resp.status_code, 404);
    assert_eq!(resp.payload, None);
    assert_eq!(ctx, 7);
}

#[test]
fn test_router_prefix_route() {
    let router = Router::new().with_route("/files/**", echo_param_handler());
    let (res, _) = router.handle(bare_request("/files/a/b/c"), 0u32);
    assert!(res.is_ok());
    let (res, _) = router.handle(bare_request("/other"), 0u32);
    assert_eq!(res.unwrap_err().status_code, 404);
}

#[test]
fn test_authenticator_rejection_is_bare_401() {
    let auth = |req: &Request<Vec<u8>>, ctx: u32| -> (Result<(), AuthError>, u32) {
        match req.params.get_any("token") {
            Some(_) => (Ok(()), ctx),
            None => (Err(AuthError::new("very detailed secret reason")), ctx),
        }
    };
    let guarded = Authenticator::new(auth, echo_param_handler());
    let (res, ctx) = guarded.handle(bare_request("/"), 0u32);
    let resp = res.unwrap_err();
    assert_eq!(resp.status_code, 401);
    assert_eq!(resp.payload, None);
    assert!(resp.headers.is_empty());
    // The wrapped handler increments the context; a rejected request never
    // reaches it.
    assert_eq!(ctx, 0);

    let mut req = bare_request("/");
    req.params.add(Param::Query("token".to_string()), "t".to_string());
    let (res, ctx) = guarded.handle(req, 0u32);
    assert!(res.is_ok());
    assert_eq!(ctx, 1);
}

fn ok_handler() -> FnHandler<
    Vec<u8>,
    Vec<u8>,
    Vec<u8>,
    u32,
    impl Fn(Request<Vec<u8>>, u32) -> RawHandled,
> {
    FnHandler::new(|_req: Request<Vec<u8>>, ctx: u32| -> RawHandled {
        (Ok(Response::new(200).with_payload(b"hi".to_vec())), ctx + 1)
    })
}

fn content_type_of(resp: &Response<Vec<u8>>) -> Option<String> {
    resp.headers
        .iter()
        .find(|(n, _)| n == "Content-Type")
        .map(|(_, v)| v.clone())
}

#[test]
fn test_negotiation_accept_text_plain() {
    let handler = MediaTypeSerializer::new(ok_handler())
        .with_media_type::<ApplicationJson>(BytesCodec, true)
        .with_media_type::<TextPlain>(BytesCodec, false);
    let req = bare_request("/").with_header("Accept", "text/plain");
    let (res, _) = handler.handle(req, 0u32);
    let resp = res.unwrap();
    assert_eq!(resp.status_code, 200);
    assert_eq!(content_type_of(&resp), Some("text/plain".to_string()));
    assert_eq!(resp.payload, Some(b"hi".to_vec()));
}

#[test]
fn test_negotiation_no_accept_uses_default() {
    let handler = MediaTypeSerializer::new(ok_handler())
        .with_media_type::<ApplicationJson>(BytesCodec, true)
        .with_media_type::<TextPlain>(BytesCodec, false);
    let (res, _) = handler.handle(bare_request("/"), 0u32);
    let resp = res.unwrap();
    assert_eq!(resp.status_code, 200);
    assert_eq!(content_type_of(&resp), Some("application/json".to_string()));
}

#[test]
fn test_negotiation_unregistered_accept_is_406_before_handler() {
    let handler = MediaTypeSerializer::new(ok_handler())
        .with_media_type::<ApplicationJson>(BytesCodec, true)
        .with_media_type::<TextPlain>(BytesCodec, false);
    let req = bare_request("/").with_header("Accept", "application/xml");
    let (res, ctx) = handler.handle(req, 0u32);
    let resp = res.unwrap_err();
    assert_eq!(resp.status_code, 406);
    assert_eq!(resp.payload, None);
    // The wrapped handler increments the context; an unsatisfiable request
    // never triggers it.
    assert_eq!(ctx, 0);
}

#[test]
fn test_negotiation_wildcard_accept() {
    let handler = MediaTypeSerializer::new(ok_handler())
        .with_media_type::<ApplicationJson>(BytesCodec, true)
        .with_media_type::<TextPlain>(BytesCodec, false);
    let req = bare_request("/").with_header("Accept", "*/*");
    let (res, _) = handler.handle(req, 0u32);
    assert_eq!(content_type_of(&res.unwrap()), Some("application/json".to_string()));
}

#[test]
fn test_accept_quality_sorted_ascending() {
    let accept = jbhttp::request::header::Accept::from_str("a/b;q=0.9, c/d;q=0.1, e/f;q=0.5");
    let qs: Vec<u16> = accept.prefs.iter().map(|p| p.quality).collect();
    assert_eq!(qs, vec![100, 500, 900]);
    assert_eq!(accept.prefs[0].mime_type, "c");
}

#[test]
fn test_params_precedence_path_over_query_over_body() {
    let mut params = Params::new();
    params.add(Param::Body("k".to_string()), "from-body".to_string());
    params.add(Param::Query("k".to_string()), "from-query".to_string());
    assert_eq!(params.get_any("k"), Some("from-query".to_string()));
    params.add(Param::Path("k".to_string()), "from-path".to_string());
    assert_eq!(params.get_any("k"), Some("from-path".to_string()));
    assert_eq!(params.get_any("missing"), None);
}

#[test]
fn test_pool_bounded_and_exactly_once() {
    let mut pool = PoolState::new(2);
    assert!(pool.submit(1));
    assert!(pool.submit(2));
    assert!(pool.submit(3));
    // A unit the pool already tracks is refused.
    assert!(!pool.submit(2));
    assert_eq!(pool.begin(), Some(1));
    assert_eq!(pool.begin(), Some(2));
    // The third unit must wait: at most two run at once.
    assert_eq!(pool.begin(), None);
    assert!(pool.complete(1));
    // A unit completes exactly once.
    assert!(!pool.complete(1));
    assert_eq!(pool.begin(), Some(3));
    assert!(pool.complete(2));
    assert!(pool.complete(3));
    assert_eq!(pool.begin(), None);
}

fn person_router() -> Router<
    FnHandler<
        Vec<u8>,
        Vec<u8>,
        Vec<u8>,
        u32,
        impl Fn(Request<Vec<u8>>, u32) -> RawHandled,
    >,
> {
    let person = FnHandler::new(|req: Request<Vec<u8>>, ctx: u32| -> RawHandled {
        match req.params.get_any("id") {
            Some(ref id) if id == "1" => {
                (Ok(Response::new(200).with_payload(b"{\"id\":1}".to_vec())), ctx)
            },
            _ => (Err(Response::new(404)), ctx),
        }
    });
    Router::new().with_route("/person/?id", person)
}

#[test]
fn test_missing_person_is_404_with_empty_body() {
    let server = StreamServer::new((), person_router());
    let input = b"GET /person/42 HTTP/1.1\r\nAccept: application/json\r\n\r\n".to_vec();
    let (bytes, _) = server.respond(input, 0u32);
    let text = String::from_utf8(bytes).unwrap();
    assert!(text.starts_with("HTTP/1.1 404 Not Found\r\n"));
    assert!(text.ends_with("\r\n\r\n"));
}

#[test]
fn test_missing_person_with_error_shaping_filter() {
    let shaped = ErrorFilter::new(
        |resp: Response<Vec<u8>>, ctx: u32| -> (Response<Vec<u8>>, u32) {
            let body = format!(
                "{{\"status\":{},\"reason\":\"resource not found\"}}",
                resp.status_code
            );
            (resp.with_payload(body.into_bytes()), ctx)
        },
        person_router(),
    );
    let server = StreamServer::new((), shaped);
    let input = b"GET /person/42 HTTP/1.1\r\nAccept: application/json\r\n\r\n".to_vec();
    let (bytes, _) = server.respond(input, 0u32);
    let text = String::from_utf8(bytes).unwrap();
    assert!(text.starts_with("HTTP/1.1 404 Not Found\r\n"));
    assert!(text.ends_with("{\"status\":404,\"reason\":\"resource not found\"}"));
}

#[test]
fn test_server_response_carries_identity_headers() {
    let server = StreamServer::new((), person_router());
    let input = b"GET /person/1 HTTP/1.1\r\n\r\n".to_vec();
    let (bytes, _) = server.respond(input, 0u32);
    let text = String::from_utf8(bytes).unwrap();
    assert!(text.contains("\r\nServer: jbhttp::StreamServer/0.1.0\r\n"));
    assert!(text.contains("\r\nConnection: keep-alive\r\n"));
    assert!(text.starts_with("HTTP/1.1 200 OK\r\n"));
}

#[test]
fn test_server_parse_failure_is_400_with_reason() {
    let server = StreamServer::new((), person_router());
    let (bytes, _) = server.respond(b"FOO".to_vec(), 0u32);
    let text = String::from_utf8(bytes).unwrap();
    assert!(text.starts_with("HTTP/1.1 400 Bad Request\r\n"));
    assert!(text.ends_with("Error parsing request at position 0: invalid HTTP method"));
}
