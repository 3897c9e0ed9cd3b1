use webserve::response::{u64_to_dec, HttpResponse, HttpStatus};

fn contains(hay: &[u8], needle: &[u8]) -> bool {
    hay.windows(needle.len()).any(|w| w == needle)
}

#[test]
fn decimal_digits_are_exact() {
    assert_eq!(u64_to_dec(0), b"0".to_vec());
    assert_eq!(u64_to_dec(7), b"7".to_vec());
    assert_eq!(u64_to_dec(42), b"42".to_vec());
    assert_eq!(u64_to_dec(1000), b"1000".to_vec());
    assert_eq!(u64_to_dec(u64::MAX), b"18446744073709551615".to_vec());
}

#[test]
fn ok_response_counts_its_body() {
    let mut res = HttpResponse::create_response(false);
    res.append_string(b"hi".to_vec());
    let out = res.finalize();
    let prefix = b"HTTP/1.1 200 OK\nContent-Length: 2\nDate: ";
    assert_eq!(&out[..prefix.len()], &prefix[..]);
    assert!(out.ends_with(b"\n\nhi"));
    let date = &out[prefix.len()..out.len() - 4];
    assert!(!date.contains(&b'\n'), "the Date value stays on its line");
}

#[test]
fn not_found_overwrites_the_body() {
    let mut res = HttpResponse::create_response(false);
    res.append_string(b"should be discarded".to_vec());
    res.set_status(HttpStatus::NotFound);
    let out = res.finalize();
    assert!(out.starts_with(b"HTTP/1.1 404 Not Found\n"));
    assert!(out.ends_with(b"\n404 Not Found"));
    assert!(contains(&out, b"Content-Length: 13\n"));
    assert!(!contains(&out, b"discarded"));
}

#[test]
fn not_implemented_has_its_text() {
    let mut res = HttpResponse::create_response(false);
    res.set_status(HttpStatus::NotImplemented);
    let out = res.finalize();
    assert!(out.starts_with(b"HTTP/1.1 501 Not Implemented\n"));
    assert!(out.ends_with(b"\n501 Not Implemented"));
}

#[test]
fn bad_request_has_its_text() {
    let mut res = HttpResponse::create_response(false);
    res.set_status(HttpStatus::BadRequest);
    let out = res.finalize();
    assert!(out.starts_with(b"HTTP/1.1 400 Bad Request\n"));
    assert!(out.ends_with(b"\n400 Bad Request"));
}

#[test]
fn head_response_skips_computed_length() {
    let mut res = HttpResponse::create_response(true);
    let out = res.finalize();
    assert!(out.starts_with(b"HTTP/1.1 200 OK\nDate: "));
    assert!(!contains(&out, b"Content-Length"));
    assert!(out.ends_with(b"\n\n"), "the body separator is still written");
}

#[test]
fn date_header_has_the_fixed_shape() {
    let mut res = HttpResponse::create_response(true);
    let out = res.finalize();
    let prefix = b"HTTP/1.1 200 OK\nDate: ";
    assert_eq!(&out[..prefix.len()], &prefix[..]);
    // e.g. "Mon, 02 Jan 2006 15:04:05 GMT"
    let date = &out[prefix.len()..out.len() - 2];
    assert_eq!(date.len(), 29);
    assert!(date.ends_with(b" GMT"));
    assert_eq!(&date[3..5], b", ");
    assert!(date[5].is_ascii_digit() && date[6].is_ascii_digit());
    assert_eq!(date[16], b' ');
    assert_eq!(date[19], b':');
    assert_eq!(date[22], b':');
}

#[test]
fn interim_continue_line_is_fixed() {
    assert_eq!(webserve::lit::continue_line_v(), b"HTTP/1.1 100 Continue\n\n".to_vec());
}

#[test]
fn added_headers_reach_the_wire() {
    let mut res = HttpResponse::create_response(false);
    res.add_header(b"X-One".to_vec(), b"a".to_vec());
    res.add_header_str(b"X-Two", b"b");
    let out = res.finalize();
    assert!(contains(&out, b"X-One: a\n"));
    assert!(contains(&out, b"X-Two: b\n"));
}

#[test]
fn duplicate_header_is_overwritten_in_place() {
    let mut res = HttpResponse::create_response(false);
    res.add_header_str(b"X-One", b"a");
    res.add_header_str(b"X-Two", b"t");
    res.add_header_str(b"X-One", b"b");
    let out = res.finalize();
    assert!(contains(&out, b"X-One: b\n"));
    assert!(!contains(&out, b"X-One: a\n"));
    // the entry kept its place, before X-Two
    let one = out.windows(5).position(|w| w == b"X-One").unwrap();
    let two = out.windows(5).position(|w| w == b"X-Two").unwrap();
    assert!(one < two);
}

#[test]
fn body_appends_accumulate() {
    let mut res = HttpResponse::create_response(false);
    res.append_string(b"one ".to_vec());
    res.append_string(b"two".to_vec());
    let out = res.finalize();
    assert!(out.ends_with(b"\none two"));
    assert!(contains(&out, b"Content-Length: 7\n"));
}
