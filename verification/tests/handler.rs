use webserve::handler::{handle_client, handle_request, FileAccess};
use webserve::request::HttpRequest;
use webserve::response::{HttpResponse, HttpStatus};

fn lines(ls: &[&str]) -> Vec<Vec<u8>> {
    ls.iter().map(|l| l.as_bytes().to_vec()).collect()
}

fn contains(hay: &[u8], needle: &[u8]) -> bool {
    hay.windows(needle.len()).any(|w| w == needle)
}

#[test]
fn get_found_serves_the_file() {
    let ls = lines(&["GET /f.txt HTTP/1.1", "Host: h", "Connection: close", ""]);
    let files = vec![FileAccess::Content(b"text/plain".to_vec(), b"hello world".to_vec())];
    let out = handle_client(&ls, &files);
    assert_eq!(out.len(), 1);
    let r = &out[0];
    assert!(r.starts_with(b"HTTP/1.1 200 OK\n"));
    assert!(contains(r, b"Content-Type: text/plain\n"));
    assert!(contains(r, b"Content-Length: 11\n"));
    assert!(contains(r, b"Connection: close\n"));
    assert!(r.ends_with(b"\nhello world"));
}

#[test]
fn get_missing_is_not_found() {
    let ls = lines(&["GET /gone HTTP/1.1", "Host: h", "Connection: close", ""]);
    let files = vec![FileAccess::Absent];
    let out = handle_client(&ls, &files);
    assert_eq!(out.len(), 1);
    let r = &out[0];
    assert!(r.starts_with(b"HTTP/1.1 404 Not Found\n"));
    assert!(r.ends_with(b"\n404 Not Found"));
    assert!(contains(r, b"Content-Length: 13\n"));
}

#[test]
fn head_found_reports_metadata_length() {
    let ls = lines(&["HEAD /f.txt HTTP/1.1", "Host: h", "Connection: close", ""]);
    let files = vec![FileAccess::Size(b"text/plain".to_vec(), 5)];
    let out = handle_client(&ls, &files);
    assert_eq!(out.len(), 1);
    let r = &out[0];
    assert!(r.starts_with(b"HTTP/1.1 200 OK\n"));
    assert!(contains(r, b"Content-Type: text/plain\n"));
    assert!(contains(r, b"Content-Length: 5\n"));
    // the body write still happens; the buffer was left empty
    assert!(r.ends_with(b"\n\n"));
}

#[test]
fn other_method_is_not_implemented() {
    let ls = lines(&["DELETE /f.txt HTTP/1.1", "Host: h", "Connection: close", ""]);
    let files = vec![FileAccess::Absent];
    let out = handle_client(&ls, &files);
    assert_eq!(out.len(), 1);
    assert!(out[0].starts_with(b"HTTP/1.1 501 Not Implemented\n"));
    assert!(out[0].ends_with(b"\n501 Not Implemented"));
}

#[test]
fn close_ends_after_one_cycle() {
    // a second request waits on the connection, but the first asked
    // to close: it is never read
    let ls = lines(&[
        "GET /a HTTP/1.1",
        "Host: h",
        "Connection: close",
        "",
        "GET /b HTTP/1.1",
        "Host: h",
        "",
    ]);
    let files = vec![
        FileAccess::Content(b"text/plain".to_vec(), b"A".to_vec()),
        FileAccess::Content(b"text/plain".to_vec(), b"B".to_vec()),
    ];
    let out = handle_client(&ls, &files);
    assert_eq!(out.len(), 1);
    assert!(out[0].ends_with(b"\nA"));
}

#[test]
fn keep_alive_serves_both_in_order() {
    let ls = lines(&[
        "GET /a HTTP/1.1",
        "Host: h",
        "",
        "GET /b HTTP/1.1",
        "Host: h",
        "Connection: close",
        "",
    ]);
    let files = vec![
        FileAccess::Content(b"text/plain".to_vec(), b"first".to_vec()),
        FileAccess::Content(b"text/html".to_vec(), b"second".to_vec()),
    ];
    let out = handle_client(&ls, &files);
    assert_eq!(out.len(), 2);
    assert!(out[0].ends_with(b"\nfirst"));
    assert!(contains(&out[0], b"Connection: keep-alive\n"));
    assert!(out[1].ends_with(b"\nsecond"));
    assert!(contains(&out[1], b"Connection: close\n"));
}

#[test]
fn resolved_type_flows_to_the_response() {
    let (full, mime) =
        webserve::resolve::access_file(&b"/srv".to_vec(), &b"/".to_vec()).unwrap();
    assert_eq!(full, b"/srv/index.html".to_vec());
    let ls = lines(&["GET / HTTP/1.1", "Host: h", "Connection: close", ""]);
    let out = handle_client(&ls, &vec![FileAccess::Content(mime, b"<html></html>".to_vec())]);
    assert!(contains(&out[0], b"Content-Type: text/html\n"));
    assert!(contains(&out[0], b"Content-Length: 13\n"));
    assert!(out[0].ends_with(b"\n<html></html>"));
}

#[test]
fn bad_request_line_sends_nothing() {
    let ls = lines(&["nonsense", ""]);
    let out = handle_client(&ls, &vec![]);
    assert_eq!(out.len(), 0);
}

#[test]
fn session_ends_when_lines_run_out() {
    let ls = lines(&["GET /a HTTP/1.1", "Host: h", ""]);
    let files = vec![FileAccess::Content(b"text/plain".to_vec(), b"A".to_vec())];
    // keep-alive held, but no further request arrives
    let out = handle_client(&ls, &files);
    assert_eq!(out.len(), 1);
    assert!(contains(&out[0], b"Connection: keep-alive\n"));
}

#[test]
fn handlers_do_not_interfere() {
    // two independent sessions over the same inputs produce the same
    // responses apart from the Date value
    let ls = lines(&["GET /a HTTP/1.1", "Host: h", "Connection: close", ""]);
    let files = vec![FileAccess::Content(b"text/plain".to_vec(), b"same".to_vec())];
    let a = handle_client(&ls, &files);
    let b = handle_client(&ls, &files);
    assert_eq!(a.len(), 1);
    assert_eq!(b.len(), 1);
    assert!(a[0].starts_with(b"HTTP/1.1 200 OK\n"));
    assert!(b[0].starts_with(b"HTTP/1.1 200 OK\n"));
    assert!(a[0].ends_with(b"\nsame"));
    assert!(b[0].ends_with(b"\nsame"));
}

#[test]
fn dispatch_without_a_request_body_change_for_head() {
    // HEAD leaves the buffer empty: the Writer is body-agnostic and
    // the handler never fills it
    let ls = lines(&["HEAD /f HTTP/1.1", "Host: h", "Connection: close", ""]);
    let (req, _) = HttpRequest::receive_request(&ls, 0);
    let req = req.unwrap();
    let mut res = HttpResponse::create_response(true);
    handle_request(&req, &mut res, &FileAccess::Size(b"text/plain".to_vec(), 9));
    assert_eq!(res.buffer.len(), 0);
    assert!(matches!(res.status, HttpStatus::Okay));
}

#[test]
fn mismatched_outcome_is_not_found() {
    // a GET that somehow got only a size is a miss, as is a HEAD
    // handed contents
    let ls = lines(&["GET /f HTTP/1.1", "Host: h", "Connection: close", ""]);
    let files = vec![FileAccess::Size(b"text/plain".to_vec(), 5)];
    let out = handle_client(&ls, &files);
    assert!(out[0].starts_with(b"HTTP/1.1 404 Not Found\n"));
}
