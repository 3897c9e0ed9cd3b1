use webserve::request::{HttpRequest, RequestType};

fn lines(ls: &[&str]) -> Vec<Vec<u8>> {
    ls.iter().map(|l| l.as_bytes().to_vec()).collect()
}

#[test]
fn get_with_host_parses() {
    let ls = lines(&["GET /hello HTTP/1.1", "Host: example.com", "X-One: a", ""]);
    let (req, next) = HttpRequest::receive_request(&ls, 0);
    let req = req.expect("a valid request must parse");
    assert!(matches!(req.request_type, RequestType::Get));
    assert_eq!(req.path, b"/hello".to_vec());
    assert!(req.same_spec);
    assert!(req.keep_alive);
    assert_eq!(next, 4);
    let v = req.headers.get(b"X-One").expect("retained header");
    assert_eq!(v.clone(), b"a".to_vec());
}

#[test]
fn head_with_host_parses() {
    let ls = lines(&["HEAD /x.html HTTP/1.1", "Host: h", ""]);
    let (req, _) = HttpRequest::receive_request(&ls, 0);
    let req = req.unwrap();
    assert!(matches!(req.request_type, RequestType::Head));
    assert_eq!(req.path, b"/x.html".to_vec());
}

#[test]
fn http11_without_host_is_dropped() {
    let ls = lines(&["GET /hello HTTP/1.1", "X-One: a", ""]);
    let (req, _) = HttpRequest::receive_request(&ls, 0);
    assert!(req.is_none());
}

#[test]
fn old_protocol_needs_no_host() {
    let ls = lines(&["GET /hello HTTP/1.0", ""]);
    let (req, _) = HttpRequest::receive_request(&ls, 0);
    let req = req.unwrap();
    assert!(!req.same_spec);
    assert!(req.keep_alive, "keep-alive defaults to true");
}

#[test]
fn connection_close_clears_keep_alive() {
    let ls = lines(&["GET /a HTTP/1.1", "Host: h", "Connection: close", ""]);
    let (req, _) = HttpRequest::receive_request(&ls, 0);
    assert!(!req.unwrap().keep_alive);
}

#[test]
fn connection_keep_alive_case_insensitive() {
    let ls = lines(&["GET /a HTTP/1.1", "Host: h", "Connection: Keep-Alive", ""]);
    let (req, _) = HttpRequest::receive_request(&ls, 0);
    assert!(req.unwrap().keep_alive);
}

#[test]
fn connection_other_value_clears_keep_alive() {
    let ls = lines(&["GET /a HTTP/1.1", "Host: h", "Connection: upgrade", ""]);
    let (req, _) = HttpRequest::receive_request(&ls, 0);
    assert!(!req.unwrap().keep_alive);
}

#[test]
fn method_and_version_case_insensitive() {
    let ls = lines(&["get /hello http/1.1", "Host: h", ""]);
    let (req, _) = HttpRequest::receive_request(&ls, 0);
    let req = req.unwrap();
    assert!(matches!(req.request_type, RequestType::Get));
    assert!(req.same_spec);
}

#[test]
fn unknown_method_is_other() {
    let ls = lines(&["DELETE /thing HTTP/1.1", "Host: h", ""]);
    let (req, _) = HttpRequest::receive_request(&ls, 0);
    assert!(matches!(req.unwrap().request_type, RequestType::Other));
}

#[test]
fn tokens_anchor_at_the_end() {
    // Extra leading tokens are ignored: the last three anchor the
    // version, the path and the method.
    let ls = lines(&["x y GET /p HTTP/1.1", "Host: h", ""]);
    let (req, _) = HttpRequest::receive_request(&ls, 0);
    let req = req.unwrap();
    assert!(matches!(req.request_type, RequestType::Get));
    assert_eq!(req.path, b"/p".to_vec());
}

#[test]
fn short_request_line_is_dropped() {
    let ls = lines(&["GET / H", ""]);
    let (req, next) = HttpRequest::receive_request(&ls, 0);
    assert!(req.is_none());
    assert_eq!(next, 1);
}

#[test]
fn too_few_tokens_is_dropped() {
    let ls = lines(&["aaaaaaaaaaaaaaaa", ""]);
    let (req, _) = HttpRequest::receive_request(&ls, 0);
    assert!(req.is_none());
}

#[test]
fn malformed_header_is_dropped() {
    let ls = lines(&["GET /a HTTP/1.1", "Host: h", "no colon here", ""]);
    let (req, _) = HttpRequest::receive_request(&ls, 0);
    assert!(req.is_none());
}

#[test]
fn missing_blank_line_is_dropped() {
    let ls = lines(&["GET /a HTTP/1.1", "Host: h"]);
    let (req, next) = HttpRequest::receive_request(&ls, 0);
    assert!(req.is_none());
    assert_eq!(next, 2);
}

#[test]
fn carriage_returns_are_trimmed() {
    let ls = lines(&["GET /a HTTP/1.1\r", "Host: h\r", "\r"]);
    let (req, _) = HttpRequest::receive_request(&ls, 0);
    let req = req.unwrap();
    assert_eq!(req.path, b"/a".to_vec());
    assert!(req.same_spec);
}

#[test]
fn host_and_connection_are_not_retained() {
    let ls = lines(&["GET /a HTTP/1.1", "Host: h", "Connection: close", "X-Two: b", ""]);
    let (req, _) = HttpRequest::receive_request(&ls, 0);
    let req = req.unwrap();
    assert!(req.headers.get(b"Host").is_none());
    assert!(req.headers.get(b"Connection").is_none());
    assert_eq!(req.headers.len(), 1);
}

#[test]
fn duplicate_header_overwrites() {
    let ls = lines(&["GET /a HTTP/1.1", "Host: h", "X-One: a", "X-One: b", ""]);
    let (req, _) = HttpRequest::receive_request(&ls, 0);
    let req = req.unwrap();
    assert_eq!(req.headers.len(), 1);
    assert_eq!(req.headers.get(b"X-One").unwrap().clone(), b"b".to_vec());
}

#[test]
fn header_values_are_trimmed() {
    let ls = lines(&["GET /a HTTP/1.1", "Host: h", "X-One:    spaced out   ", ""]);
    let (req, _) = HttpRequest::receive_request(&ls, 0);
    let req = req.unwrap();
    assert_eq!(req.headers.get(b"X-One").unwrap().clone(), b"spaced out".to_vec());
}

#[test]
fn dump_headers_lists_entries() {
    let ls = lines(&["GET /a HTTP/1.1", "Host: h", "X-One: a", ""]);
    let (req, _) = HttpRequest::receive_request(&ls, 0);
    let dump = req.unwrap().dump_headers();
    assert_eq!(dump, b"Header Dump:\nX-One : a\nEnd Header Dump\n\n".to_vec());
}

#[test]
fn second_request_parses_after_first() {
    let ls = lines(&[
        "GET /a HTTP/1.1",
        "Host: h",
        "",
        "GET /b HTTP/1.1",
        "Host: h",
        "",
    ]);
    let (first, next) = HttpRequest::receive_request(&ls, 0);
    assert_eq!(first.unwrap().path, b"/a".to_vec());
    assert_eq!(next, 3);
    let (second, end) = HttpRequest::receive_request(&ls, next);
    assert_eq!(second.unwrap().path, b"/b".to_vec());
    assert_eq!(end, 6);
}
