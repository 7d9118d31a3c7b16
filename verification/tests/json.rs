use axum::http::{header, HeaderMap};
use axum_sentinel_monitor::json::{check_type, json_reply, JsonBody};
use axum_sentinel_monitor::{SonicJson, SonicJsonRejection};

fn parse(bytes: &[u8]) -> Result<SonicJson<Vec<u64>>, SonicJsonRejection> {
    SonicJson::from_parsed(sonic_rs::from_slice::<Vec<u64>>(bytes).map_err(|error| error.to_string()))
}

fn message(body: JsonBody) -> String {
    match body {
        JsonBody::Message(text) => text,
        JsonBody::Document(_) => panic!("a document"),
    }
}

#[test]
fn documents_are_parsed_or_rejected() {
    assert_eq!(parse(b"[1, 2, 3]").unwrap().0, vec![1, 2, 3]);
    let rejection = parse(b"[1, 2").unwrap_err();
    assert_eq!(rejection.status(), 400);
    assert!(rejection.message().starts_with("invalid JSON: "));
    assert!(rejection.message().len() > "invalid JSON: ".len());
    assert!(matches!(rejection, SonicJsonRejection::InvalidJson(_)));
}

#[test]
fn bodies_that_cannot_be_read_are_rejected() {
    let rejection = SonicJson::<u8>::from_body(Err("too large".into())).unwrap_err();
    assert_eq!(rejection, SonicJsonRejection::Body("too large".into()));
    assert_eq!(rejection.status(), 400);
    assert_eq!(rejection.message(), "failed to read JSON body: too large");
    let rejection = SonicJson::<u8>::from_body(Ok(Err("eof".into()))).unwrap_err();
    assert_eq!(rejection, SonicJsonRejection::InvalidJson("eof".into()));
    assert_eq!(rejection.message(), "invalid JSON: eof");
    assert_eq!(SonicJson::from_body(Ok(Ok(7u8))).unwrap().0, 7);
}

#[test]
fn requests_without_a_json_type_are_rejected() {
    let mut headers = HeaderMap::new();
    assert_eq!(check_type(&headers), Err(SonicJsonRejection::MissingContentType));
    headers.insert(header::CONTENT_TYPE, "text/plain".parse().unwrap());
    let rejection = check_type(&headers).unwrap_err();
    let reply = rejection.reply();
    assert_eq!(reply.status, 415);
    assert_eq!(reply.content_type, "text/plain; charset=utf-8");
    assert_eq!(
        message(reply.body),
        "expected request with `Content-Type: application/json` or `application/*+json`"
    );
    headers.insert(header::CONTENT_TYPE, "application/json".parse().unwrap());
    assert_eq!(check_type(&headers), Ok(()));
}

#[test]
fn replies_to_rejections() {
    let reply = SonicJsonRejection::InvalidJson("x".into()).reply();
    assert_eq!(reply.status, 400);
    assert_eq!(reply.content_type, "text/plain; charset=utf-8");
    assert_eq!(message(reply.body), "invalid JSON: x");
}

#[test]
fn serialized_documents_become_replies() {
    let reply = json_reply(sonic_rs::to_vec(&vec![1u8, 2]).map_err(|error| error.to_string()));
    assert_eq!(reply.status, 200);
    assert_eq!(reply.content_type, "application/json");
    assert!(matches!(reply.body, JsonBody::Document(bytes) if bytes == b"[1,2]"));
    let reply = json_reply(Err("no".into()));
    assert_eq!(reply.status, 500);
    assert_eq!(reply.content_type, "text/plain; charset=utf-8");
    assert_eq!(message(reply.body), "no");
}

#[test]
fn values_are_wrapped() {
    let json = SonicJson::from(5u32);
    assert_eq!(json.0, 5);
    assert_eq!(*json, 5);
    assert_eq!(SonicJson::<u32>::default().0, 0);
}
