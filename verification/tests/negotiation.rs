//! Decoding by Content-Type, the combined decode/encode stage, failure
//! encoding, and the header grammars they rest on.
use jbhttp::content::mediatypes::{ApplicationJson, TextPlain};
use jbhttp::content::{BytesCodec, MediaTypeDeserializer, MediaTypeErrorSerializer, MediaTypeSerde};
use jbhttp::handler::{FnHandler, Handled, Handler};
use jbhttp::request::header::{Accept, ContentType, Header, MediaTypePreference};
use jbhttp::request::{Method, Param, Params, Request};
use jbhttp::response::Response;

fn request_with(headers: &[(&str, &str)], body: Option<&[u8]>) -> Request<Vec<u8>> {
    Request {
        method: Method::POST,
        path: "/".to_string(),
        query: String::new(),
        fragment: String::new(),
        headers: headers
            .iter()
            .map(|(n, v)| (n.to_string(), v.to_string()))
            .collect(),
        content_length: body.map_or(0, |b| b.len()),
        payload: body.map(|b| b.to_vec()),
        params: Params::new(),
    }
}

type RawHandled = Handled<Vec<u8>, Vec<u8>, u32>;

fn echo_body() -> FnHandler<
    Vec<u8>,
    Vec<u8>,
    Vec<u8>,
    u32,
    impl Fn(Request<Vec<u8>>, u32) -> RawHandled,
> {
    FnHandler::new(|req: Request<Vec<u8>>, ctx: u32| -> RawHandled {
        let body = req.payload.unwrap_or_else(|| b"empty".to_vec());
        (Ok(Response::new(200).with_payload(body)), ctx + 1)
    })
}

#[test]
fn test_deserializer_matches_declared_type() {
    let handler = MediaTypeDeserializer::new(echo_body())
        .with_media_type::<ApplicationJson>(BytesCodec, false);
    let req = request_with(&[("content-type", "application/json")], Some(b"{}"));
    let (res, _) = handler.handle(req, 0u32);
    assert_eq!(res.unwrap().payload, Some(b"{}".to_vec()));
}

#[test]
fn test_deserializer_unregistered_type_is_415_before_handler() {
    let handler = MediaTypeDeserializer::new(echo_body())
        .with_media_type::<ApplicationJson>(BytesCodec, false);
    let req = request_with(&[("content-type", "text/csv")], Some(b"a,b"));
    let (res, ctx) = handler.handle(req, 0u32);
    let resp = res.unwrap_err();
    assert_eq!(resp.status_code, 415);
    assert_eq!(ctx, 0);
}

#[test]
fn test_deserializer_no_declared_type_uses_default() {
    let handler = MediaTypeDeserializer::new(echo_body())
        .with_media_type::<ApplicationJson>(BytesCodec, true);
    let req = request_with(&[], Some(b"{}"));
    let (res, _) = handler.handle(req, 0u32);
    assert_eq!(res.unwrap().status_code, 200);
}

#[test]
fn test_deserializer_malformed_content_type_is_400() {
    let handler = MediaTypeDeserializer::new(echo_body())
        .with_media_type::<ApplicationJson>(BytesCodec, true);
    let req = request_with(&[("content-type", "nonsense")], Some(b"{}"));
    let (res, _) = handler.handle(req, 0u32);
    assert_eq!(res.unwrap_err().status_code, 400);
}

#[test]
fn test_serde_decodes_then_encodes() {
    let handler = MediaTypeSerde::new(echo_body())
        .with_media_type::<ApplicationJson>(BytesCodec, BytesCodec, true)
        .with_media_type::<TextPlain>(BytesCodec, BytesCodec, false);
    let req = request_with(
        &[("content-type", "application/json"), ("accept", "text/plain")],
        Some(b"{\"a\":1}"),
    );
    let (res, ctx) = handler.handle(req, 0u32);
    let resp = res.unwrap();
    assert_eq!(resp.status_code, 200);
    assert_eq!(resp.payload, Some(b"{\"a\":1}".to_vec()));
    assert!(resp
        .headers
        .iter()
        .any(|(n, v)| n == "Content-Type" && v == "text/plain"));
    assert_eq!(ctx, 1);
}

#[test]
fn test_serde_unsatisfiable_accept_is_406_before_anything() {
    let handler = MediaTypeSerde::new(echo_body())
        .with_media_type::<ApplicationJson>(BytesCodec, BytesCodec, true);
    let req = request_with(
        &[("content-type", "application/json"), ("accept", "video/mp4")],
        Some(b"{}"),
    );
    let (res, ctx) = handler.handle(req, 0u32);
    assert_eq!(res.unwrap_err().status_code, 406);
    assert_eq!(ctx, 0);
}

#[test]
fn test_error_serializer_encodes_failures_only() {
    let failing = FnHandler::new(|_req: Request<Vec<u8>>, ctx: u32| -> RawHandled {
        (Err(Response::new(418).with_payload(b"teapot".to_vec())), ctx)
    });
    let handler = MediaTypeErrorSerializer::new(failing)
        .with_media_type::<ApplicationJson>(BytesCodec, true);
    let (res, _) = handler.handle(request_with(&[], None), 0u32);
    let resp = res.unwrap_err();
    assert_eq!(resp.status_code, 418);
    assert_eq!(resp.payload, Some(b"teapot".to_vec()));
    assert!(resp
        .headers
        .iter()
        .any(|(n, v)| n == "Content-Type" && v == "application/json"));
}

#[test]
fn test_media_type_preference_parsing() {
    let p = MediaTypePreference::from_str("text/html").unwrap();
    assert_eq!(p.mime_type, "text");
    assert_eq!(p.mime_subtype, "html");
    assert_eq!(p.quality, 1000);

    let p = MediaTypePreference::from_str("application/xml; q=0.25").unwrap();
    assert_eq!(p.quality, 250);

    assert!(MediaTypePreference::from_str("nonsense").is_err());
    assert!(MediaTypePreference::from_str("a/b;q=2.0").is_err());
}

#[test]
fn test_accept_drops_entries_that_do_not_parse() {
    let accept = Accept::from_str("text/html, garbage, image/png;q=0.5");
    let types: Vec<String> = accept
        .prefs
        .iter()
        .map(|p| format!("{}/{}", p.mime_type, p.mime_subtype))
        .collect();
    assert_eq!(types, vec!["image/png".to_string(), "text/html".to_string()]);
}

#[test]
fn test_content_type_parsing() {
    let ct = ContentType::from_str("text/html; charset=UTF-8").unwrap();
    assert_eq!(ct.mime_type, "text");
    assert_eq!(ct.mime_subtype, "html");
    assert_eq!(ct.charset, Some("UTF-8".to_string()));
    assert_eq!(ct.boundary, None);

    let ct = ContentType::from_str("multipart/form-data; boundary=something").unwrap();
    assert_eq!(ct.boundary, Some("something".to_string()));

    assert!(ContentType::from_str("no-slash").is_err());
    assert!(ContentType::from_str("a/b; notakeyvalue").is_err());
}

#[test]
fn test_header_names_compare_case_insensitively() {
    assert!(Header::new("Content-Type").same_as(&Header::new("content-type")));
    assert!(!Header::new("Content-Type").same_as(&Header::new("content-length")));
}

#[test]
fn test_params_get_all_and_get_first() {
    let mut params = Params::new();
    params.add(Param::Query("k".to_string()), "a".to_string());
    params.add(Param::Query("k".to_string()), "b".to_string());
    let all = params.get_all(&Param::Query("k".to_string())).unwrap();
    assert_eq!(all, vec!["a".to_string(), "b".to_string()]);
    assert_eq!(
        params.get_first(&Param::Query("k".to_string())),
        Some("a".to_string())
    );
    assert_eq!(params.get_all(&Param::Body("k".to_string())), None);
}
