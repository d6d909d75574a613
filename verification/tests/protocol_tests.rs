use rustaman::environment::Environment;
use rustaman::http::{
    parse_request, parse_response, serialize_request, serialize_response, MalformedRequestError,
    MalformedResponseError, Method, StructuredRequest, StructuredResponse,
};
use rustaman::template::compile;

fn owned(pairs: &[(&str, &str)]) -> Vec<(String, String)> {
    pairs.iter().map(|(a, b)| (a.to_string(), b.to_string())).collect()
}

#[test]
fn get_ping_scenario() {
    let mut e = Environment::new(1, "Dev");
    e.set_var("host", "http://localhost:8080");
    let compiled = compile("GET {{host}}/ping", &e).unwrap();
    assert_eq!(compiled, "GET http://localhost:8080/ping");
    let req = parse_request(&compiled).unwrap();
    assert_eq!(req.method, Method::Get);
    assert_eq!(req.url, "http://localhost:8080/ping");
    assert!(req.headers.is_empty());
    assert!(req.body.is_none());
}

#[test]
fn post_items_scenario() {
    let mut e = Environment::new(1, "Dev");
    e.set_var("host", "http://x");
    e.set_var("id", "7");
    let template = "POST {{host}}/items\nContent-Type: application/json\n\n{\"id\":{{id}}}";
    let compiled = compile(template, &e).unwrap();
    let req = parse_request(&compiled).unwrap();
    assert_eq!(req.method, Method::Post);
    assert_eq!(req.url, "http://x/items");
    assert_eq!(req.headers, owned(&[("Content-Type", "application/json")]));
    assert_eq!(req.body.as_deref(), Some("{\"id\":7}"));
}

#[test]
fn methods_are_case_insensitive_and_normalized() {
    let req = parse_request("get /x").unwrap();
    assert_eq!(req.method, Method::Get);
    let req = parse_request("dElEtE /x").unwrap();
    assert_eq!(req.method, Method::Delete);
    assert_eq!(serialize_request(&req), "DELETE /x\n");
}

#[test]
fn crlf_line_endings_are_accepted() {
    let req = parse_request("GET /x\r\nAccept: */*\r\n\r\nhello").unwrap();
    assert_eq!(req.method, Method::Get);
    assert_eq!(req.url, "/x");
    assert_eq!(req.headers, owned(&[("Accept", "*/*")]));
    assert_eq!(req.body.as_deref(), Some("hello"));
}

#[test]
fn leading_blank_lines_are_ignored() {
    let req = parse_request("\n\nGET /x").unwrap();
    assert_eq!(req.url, "/x");
}

#[test]
fn header_names_values_trimmed_and_duplicates_kept() {
    let req = parse_request("GET /x\n  Accept :  a  \nAccept: b").unwrap();
    assert_eq!(req.headers, owned(&[("Accept", "a"), ("Accept", "b")]));
}

#[test]
fn parse_errors_are_reported() {
    assert_eq!(parse_request(""), Err(MalformedRequestError::Empty));
    assert_eq!(parse_request("\n\n"), Err(MalformedRequestError::Empty));
    assert_eq!(parse_request("GET"), Err(MalformedRequestError::MissingUrl));
    assert_eq!(parse_request("GET   "), Err(MalformedRequestError::MissingUrl));
    assert_eq!(parse_request("FROB /x"), Err(MalformedRequestError::UnknownMethod));
    assert_eq!(
        parse_request("GET /x\nno-colon-here"),
        Err(MalformedRequestError::HeaderMissingColon)
    );
}

#[test]
fn request_round_trip() {
    let req = StructuredRequest {
        method: Method::Post,
        url: "http://h:1234/a b".to_string(),
        headers: owned(&[("Content-Type", "text/plain"), ("X-Twice", "1"), ("X-Twice", "2")]),
        body: Some("line1\nline2\n".to_string()),
    };
    let text = serialize_request(&req);
    assert_eq!(parse_request(&text).unwrap(), req);
}

#[test]
fn request_round_trip_without_body_or_headers() {
    let req = StructuredRequest {
        method: Method::Head,
        url: "/".to_string(),
        headers: Vec::new(),
        body: None,
    };
    let text = serialize_request(&req);
    assert_eq!(text, "HEAD /\n");
    assert_eq!(parse_request(&text).unwrap(), req);
}

#[test]
fn response_parses_and_serializes() {
    let resp = parse_response("HTTP/1.1 200 OK\r\nContent-Length: 2\r\n\r\nhi").unwrap();
    assert_eq!(resp.version, "HTTP/1.1");
    assert_eq!(resp.status, 200);
    assert_eq!(resp.reason, "OK");
    assert_eq!(resp.headers, owned(&[("Content-Length", "2")]));
    assert_eq!(resp.body.as_deref(), Some("hi"));
    assert_eq!(
        serialize_response(&resp),
        "HTTP/1.1 200 OK\nContent-Length: 2\n\nhi"
    );
}

#[test]
fn response_round_trip() {
    let resp = StructuredResponse {
        version: "HTTP/1.1".to_string(),
        status: 404,
        reason: "Not Found".to_string(),
        headers: owned(&[("Server", "demo")]),
        body: None,
    };
    let text = serialize_response(&resp);
    assert_eq!(parse_response(&text).unwrap(), resp);
}

#[test]
fn response_with_empty_reason_round_trips() {
    let resp = StructuredResponse {
        version: "HTTP/1.0".to_string(),
        status: 204,
        reason: String::new(),
        headers: Vec::new(),
        body: None,
    };
    let text = serialize_response(&resp);
    assert_eq!(text, "HTTP/1.0 204 \n");
    assert_eq!(parse_response(&text).unwrap(), resp);
}

#[test]
fn response_errors_are_reported() {
    assert_eq!(parse_response(""), Err(MalformedResponseError::Empty));
    assert_eq!(parse_response("HTTP/1.1"), Err(MalformedResponseError::MissingStatus));
    assert_eq!(
        parse_response("HTTP/1.1 abc OK"),
        Err(MalformedResponseError::BadStatusCode)
    );
    assert_eq!(
        parse_response("HTTP/1.1 99999 Too Big"),
        Err(MalformedResponseError::BadStatusCode)
    );
    assert_eq!(
        parse_response("HTTP/1.1 200 OK\nbroken header"),
        Err(MalformedResponseError::HeaderMissingColon)
    );
}

#[test]
fn status_without_reason_parses() {
    let resp = parse_response("HTTP/1.1 301").unwrap();
    assert_eq!(resp.status, 301);
    assert_eq!(resp.reason, "");
}
