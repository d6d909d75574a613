use rustaman::http::StructuredResponse;
use rustaman::runner::{execution_text, url_parts, NetworkError};

#[test]
fn success_is_rendered_as_the_serialized_response() {
    let resp = StructuredResponse {
        version: "HTTP/1.1".to_string(),
        status: 200,
        reason: "OK".to_string(),
        headers: vec![("Content-Length".to_string(), "2".to_string())],
        body: Some("hi".to_string()),
    };
    assert_eq!(
        execution_text(&Ok(resp)),
        "HTTP/1.1 200 OK\nContent-Length: 2\n\nhi"
    );
}

#[test]
fn each_failure_kind_is_labeled_apart() {
    let cases = [
        (
            NetworkError::ConnectionFailed("refused".to_string()),
            "NetworkError: ConnectionFailed: refused",
        ),
        (NetworkError::Timeout("5s".to_string()), "NetworkError: Timeout: 5s"),
        (NetworkError::Cancelled("user".to_string()), "NetworkError: Cancelled: user"),
        (NetworkError::TlsError("handshake".to_string()), "NetworkError: TlsError: handshake"),
        (
            NetworkError::ProtocolError("garbled".to_string()),
            "NetworkError: ProtocolError: garbled",
        ),
    ];
    for (err, expected) in cases {
        assert_eq!(execution_text(&Err(err)), expected);
    }
}

#[test]
fn url_splitting() {
    let p = url_parts("http://localhost:8080/ping").unwrap();
    assert_eq!((p.host.as_str(), p.port, p.path.as_str()), ("localhost", 8080, "/ping"));

    let p = url_parts("http://example.org").unwrap();
    assert_eq!((p.host.as_str(), p.port, p.path.as_str()), ("example.org", 80, "/"));

    let p = url_parts("http://h/a/b?q=1").unwrap();
    assert_eq!((p.host.as_str(), p.port, p.path.as_str()), ("h", 80, "/a/b?q=1"));

    assert!(url_parts("https://example.org").is_none());
    assert!(url_parts("example.org").is_none());
    assert!(url_parts("http://").is_none());
    assert!(url_parts("http://:80/").is_none());
    assert!(url_parts("http://h:notaport/").is_none());
    assert!(url_parts("http://h:70000/").is_none());
}
