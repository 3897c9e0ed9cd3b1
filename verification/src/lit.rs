//! The fixed byte strings of the protocol: method and header
//! tokens, status lines, and status texts. Each literal has a
//! specification-level sequence and an executable constructor that
//! is proved to build exactly that sequence.

use vstd::prelude::*;

verus! {

/// "http/1.1"
pub open spec fn http11_lc() -> Seq<u8> {
    seq![104u8, 116u8, 116u8, 112u8, 47u8, 49u8, 46u8, 49u8]
}

/// "http/1.1"
pub fn http11_lc_v() -> (r: Vec<u8>)
    ensures
        r@ == http11_lc(),
{
    let r: Vec<u8> = vec![104u8, 116u8, 116u8, 112u8, 47u8, 49u8, 46u8, 49u8];
    proof {
        assert(r@ =~= http11_lc());
    }
    r
}

/// "get"
pub open spec fn get_lc() -> Seq<u8> {
    seq![103u8, 101u8, 116u8]
}

/// "get"
pub fn get_lc_v() -> (r: Vec<u8>)
    ensures
        r@ == get_lc(),
{
    let r: Vec<u8> = vec![103u8, 101u8, 116u8];
    proof {
        assert(r@ =~= get_lc());
    }
    r
}

/// "head"
pub open spec fn head_lc() -> Seq<u8> {
    seq![104u8, 101u8, 97u8, 100u8]
}

/// "head"
pub fn head_lc_v() -> (r: Vec<u8>)
    ensures
        r@ == head_lc(),
{
    let r: Vec<u8> = vec![104u8, 101u8, 97u8, 100u8];
    proof {
        assert(r@ =~= head_lc());
    }
    r
}

/// "connection"
pub open spec fn connection_lc() -> Seq<u8> {
    seq![99u8, 111u8, 110u8, 110u8, 101u8, 99u8, 116u8, 105u8, 111u8, 110u8]
}

/// "connection"
pub fn connection_lc_v() -> (r: Vec<u8>)
    ensures
        r@ == connection_lc(),
{
    let r: Vec<u8> = vec![99u8, 111u8, 110u8, 110u8, 101u8, 99u8, 116u8, 105u8, 111u8, 110u8];
    proof {
        assert(r@ =~= connection_lc());
    }
    r
}

/// "host"
pub open spec fn host_lc() -> Seq<u8> {
    seq![104u8, 111u8, 115u8, 116u8]
}

/// "host"
pub fn host_lc_v() -> (r: Vec<u8>)
    ensures
        r@ == host_lc(),
{
    let r: Vec<u8> = vec![104u8, 111u8, 115u8, 116u8];
    proof {
        assert(r@ =~= host_lc());
    }
    r
}

/// "keep-alive"
pub open spec fn keep_alive_lc() -> Seq<u8> {
    seq![107u8, 101u8, 101u8, 112u8, 45u8, 97u8, 108u8, 105u8, 118u8, 101u8]
}

/// "keep-alive"
pub fn keep_alive_lc_v() -> (r: Vec<u8>)
    ensures
        r@ == keep_alive_lc(),
{
    let r: Vec<u8> = vec![107u8, 101u8, 101u8, 112u8, 45u8, 97u8, 108u8, 105u8, 118u8, 101u8];
    proof {
        assert(r@ =~= keep_alive_lc());
    }
    r
}

/// "/"
pub open spec fn slash() -> Seq<u8> {
    seq![47u8]
}

/// "/"
pub fn slash_v() -> (r: Vec<u8>)
    ensures
        r@ == slash(),
{
    let r: Vec<u8> = vec![47u8];
    proof {
        assert(r@ =~= slash());
    }
    r
}

/// "/index.html"
pub open spec fn index_html() -> Seq<u8> {
    seq![47u8, 105u8, 110u8, 100u8, 101u8, 120u8, 46u8, 104u8, 116u8, 109u8, 108u8]
}

/// "/index.html"
pub fn index_html_v() -> (r: Vec<u8>)
    ensures
        r@ == index_html(),
{
    let r: Vec<u8> = vec![47u8, 105u8, 110u8, 100u8, 101u8, 120u8, 46u8, 104u8, 116u8, 109u8, 108u8];
    proof {
        assert(r@ =~= index_html());
    }
    r
}

/// "application/octet-stream"
pub open spec fn octet_stream() -> Seq<u8> {
    seq![97u8, 112u8, 112u8, 108u8, 105u8, 99u8, 97u8, 116u8, 105u8, 111u8, 110u8, 47u8, 111u8, 99u8, 116u8, 101u8, 116u8, 45u8, 115u8, 116u8, 114u8, 101u8, 97u8, 109u8]
}

/// "application/octet-stream"
pub fn octet_stream_v() -> (r: Vec<u8>)
    ensures
        r@ == octet_stream(),
{
    let r: Vec<u8> = vec![97u8, 112u8, 112u8, 108u8, 105u8, 99u8, 97u8, 116u8, 105u8, 111u8, 110u8, 47u8, 111u8, 99u8, 116u8, 101u8, 116u8, 45u8, 115u8, 116u8, 114u8, 101u8, 97u8, 109u8];
    proof {
        assert(r@ =~= octet_stream());
    }
    r
}

/// "Content-Type"
pub open spec fn content_type() -> Seq<u8> {
    seq![67u8, 111u8, 110u8, 116u8, 101u8, 110u8, 116u8, 45u8, 84u8, 121u8, 112u8, 101u8]
}

/// "Content-Type"
pub fn content_type_v() -> (r: Vec<u8>)
    ensures
        r@ == content_type(),
{
    let r: Vec<u8> = vec![67u8, 111u8, 110u8, 116u8, 101u8, 110u8, 116u8, 45u8, 84u8, 121u8, 112u8, 101u8];
    proof {
        assert(r@ =~= content_type());
    }
    r
}

/// "Content-Length"
pub open spec fn content_length() -> Seq<u8> {
    seq![67u8, 111u8, 110u8, 116u8, 101u8, 110u8, 116u8, 45u8, 76u8, 101u8, 110u8, 103u8, 116u8, 104u8]
}

/// "Content-Length"
pub fn content_length_v() -> (r: Vec<u8>)
    ensures
        r@ == content_length(),
{
    let r: Vec<u8> = vec![67u8, 111u8, 110u8, 116u8, 101u8, 110u8, 116u8, 45u8, 76u8, 101u8, 110u8, 103u8, 116u8, 104u8];
    proof {
        assert(r@ =~= content_length());
    }
    r
}

/// "Date"
pub open spec fn date_name() -> Seq<u8> {
    seq![68u8, 97u8, 116u8, 101u8]
}

/// "Date"
pub fn date_name_v() -> (r: Vec<u8>)
    ensures
        r@ == date_name(),
{
    let r: Vec<u8> = vec![68u8, 97u8, 116u8, 101u8];
    proof {
        assert(r@ =~= date_name());
    }
    r
}

/// "Connection"
pub open spec fn connection_name() -> Seq<u8> {
    seq![67u8, 111u8, 110u8, 110u8, 101u8, 99u8, 116u8, 105u8, 111u8, 110u8]
}

/// "Connection"
pub fn connection_name_v() -> (r: Vec<u8>)
    ensures
        r@ == connection_name(),
{
    let r: Vec<u8> = vec![67u8, 111u8, 110u8, 110u8, 101u8, 99u8, 116u8, 105u8, 111u8, 110u8];
    proof {
        assert(r@ =~= connection_name());
    }
    r
}

/// "keep-alive"
pub open spec fn keep_alive_value() -> Seq<u8> {
    seq![107u8, 101u8, 101u8, 112u8, 45u8, 97u8, 108u8, 105u8, 118u8, 101u8]
}

/// "keep-alive"
pub fn keep_alive_value_v() -> (r: Vec<u8>)
    ensures
        r@ == keep_alive_value(),
{
    let r: Vec<u8> = vec![107u8, 101u8, 101u8, 112u8, 45u8, 97u8, 108u8, 105u8, 118u8, 101u8];
    proof {
        assert(r@ =~= keep_alive_value());
    }
    r
}

/// "close"
pub open spec fn close_value() -> Seq<u8> {
    seq![99u8, 108u8, 111u8, 115u8, 101u8]
}

/// "close"
pub fn close_value_v() -> (r: Vec<u8>)
    ensures
        r@ == close_value(),
{
    let r: Vec<u8> = vec![99u8, 108u8, 111u8, 115u8, 101u8];
    proof {
        assert(r@ =~= close_value());
    }
    r
}

/// "HTTP/1.1 200 OK\n"
pub open spec fn status_line_ok() -> Seq<u8> {
    seq![72u8, 84u8, 84u8, 80u8, 47u8, 49u8, 46u8, 49u8, 32u8, 50u8, 48u8, 48u8, 32u8, 79u8, 75u8, 10u8]
}

/// "HTTP/1.1 200 OK\n"
pub fn status_line_ok_v() -> (r: Vec<u8>)
    ensures
        r@ == status_line_ok(),
{
    let r: Vec<u8> = vec![72u8, 84u8, 84u8, 80u8, 47u8, 49u8, 46u8, 49u8, 32u8, 50u8, 48u8, 48u8, 32u8, 79u8, 75u8, 10u8];
    proof {
        assert(r@ =~= status_line_ok());
    }
    r
}

/// "HTTP/1.1 404 Not Found\n"
pub open spec fn status_line_not_found() -> Seq<u8> {
    seq![72u8, 84u8, 84u8, 80u8, 47u8, 49u8, 46u8, 49u8, 32u8, 52u8, 48u8, 52u8, 32u8, 78u8, 111u8, 116u8, 32u8, 70u8, 111u8, 117u8, 110u8, 100u8, 10u8]
}

/// "HTTP/1.1 404 Not Found\n"
pub fn status_line_not_found_v() -> (r: Vec<u8>)
    ensures
        r@ == status_line_not_found(),
{
    let r: Vec<u8> = vec![72u8, 84u8, 84u8, 80u8, 47u8, 49u8, 46u8, 49u8, 32u8, 52u8, 48u8, 52u8, 32u8, 78u8, 111u8, 116u8, 32u8, 70u8, 111u8, 117u8, 110u8, 100u8, 10u8];
    proof {
        assert(r@ =~= status_line_not_found());
    }
    r
}

/// "HTTP/1.1 501 Not Implemented\n"
pub open spec fn status_line_not_implemented() -> Seq<u8> {
    seq![72u8, 84u8, 84u8, 80u8, 47u8, 49u8, 46u8, 49u8, 32u8, 53u8, 48u8, 49u8, 32u8, 78u8, 111u8, 116u8, 32u8, 73u8, 109u8, 112u8, 108u8, 101u8, 109u8, 101u8, 110u8, 116u8, 101u8, 100u8, 10u8]
}

/// "HTTP/1.1 501 Not Implemented\n"
pub fn status_line_not_implemented_v() -> (r: Vec<u8>)
    ensures
        r@ == status_line_not_implemented(),
{
    let r: Vec<u8> = vec![72u8, 84u8, 84u8, 80u8, 47u8, 49u8, 46u8, 49u8, 32u8, 53u8, 48u8, 49u8, 32u8, 78u8, 111u8, 116u8, 32u8, 73u8, 109u8, 112u8, 108u8, 101u8, 109u8, 101u8, 110u8, 116u8, 101u8, 100u8, 10u8];
    proof {
        assert(r@ =~= status_line_not_implemented());
    }
    r
}

/// "HTTP/1.1 400 Bad Request\n"
pub open spec fn status_line_bad_request() -> Seq<u8> {
    seq![72u8, 84u8, 84u8, 80u8, 47u8, 49u8, 46u8, 49u8, 32u8, 52u8, 48u8, 48u8, 32u8, 66u8, 97u8, 100u8, 32u8, 82u8, 101u8, 113u8, 117u8, 101u8, 115u8, 116u8, 10u8]
}

/// "HTTP/1.1 400 Bad Request\n"
pub fn status_line_bad_request_v() -> (r: Vec<u8>)
    ensures
        r@ == status_line_bad_request(),
{
    let r: Vec<u8> = vec![72u8, 84u8, 84u8, 80u8, 47u8, 49u8, 46u8, 49u8, 32u8, 52u8, 48u8, 48u8, 32u8, 66u8, 97u8, 100u8, 32u8, 82u8, 101u8, 113u8, 117u8, 101u8, 115u8, 116u8, 10u8];
    proof {
        assert(r@ =~= status_line_bad_request());
    }
    r
}

/// "404 Not Found"
pub open spec fn text_not_found() -> Seq<u8> {
    seq![52u8, 48u8, 52u8, 32u8, 78u8, 111u8, 116u8, 32u8, 70u8, 111u8, 117u8, 110u8, 100u8]
}

/// "404 Not Found"
pub fn text_not_found_v() -> (r: Vec<u8>)
    ensures
        r@ == text_not_found(),
{
    let r: Vec<u8> = vec![52u8, 48u8, 52u8, 32u8, 78u8, 111u8, 116u8, 32u8, 70u8, 111u8, 117u8, 110u8, 100u8];
    proof {
        assert(r@ =~= text_not_found());
    }
    r
}

/// "501 Not Implemented"
pub open spec fn text_not_implemented() -> Seq<u8> {
    seq![53u8, 48u8, 49u8, 32u8, 78u8, 111u8, 116u8, 32u8, 73u8, 109u8, 112u8, 108u8, 101u8, 109u8, 101u8, 110u8, 116u8, 101u8, 100u8]
}

/// "501 Not Implemented"
pub fn text_not_implemented_v() -> (r: Vec<u8>)
    ensures
        r@ == text_not_implemented(),
{
    let r: Vec<u8> = vec![53u8, 48u8, 49u8, 32u8, 78u8, 111u8, 116u8, 32u8, 73u8, 109u8, 112u8, 108u8, 101u8, 109u8, 101u8, 110u8, 116u8, 101u8, 100u8];
    proof {
        assert(r@ =~= text_not_implemented());
    }
    r
}

/// "400 Bad Request"
pub open spec fn text_bad_request() -> Seq<u8> {
    seq![52u8, 48u8, 48u8, 32u8, 66u8, 97u8, 100u8, 32u8, 82u8, 101u8, 113u8, 117u8, 101u8, 115u8, 116u8]
}

/// "400 Bad Request"
pub fn text_bad_request_v() -> (r: Vec<u8>)
    ensures
        r@ == text_bad_request(),
{
    let r: Vec<u8> = vec![52u8, 48u8, 48u8, 32u8, 66u8, 97u8, 100u8, 32u8, 82u8, 101u8, 113u8, 117u8, 101u8, 115u8, 116u8];
    proof {
        assert(r@ =~= text_bad_request());
    }
    r
}

/// ": "
pub open spec fn header_sep() -> Seq<u8> {
    seq![58u8, 32u8]
}

/// ": "
pub fn header_sep_v() -> (r: Vec<u8>)
    ensures
        r@ == header_sep(),
{
    let r: Vec<u8> = vec![58u8, 32u8];
    proof {
        assert(r@ =~= header_sep());
    }
    r
}

/// "\n"
pub open spec fn newline() -> Seq<u8> {
    seq![10u8]
}

/// "\n"
pub fn newline_v() -> (r: Vec<u8>)
    ensures
        r@ == newline(),
{
    let r: Vec<u8> = vec![10u8];
    proof {
        assert(r@ =~= newline());
    }
    r
}

/// "HTTP/1.1 100 Continue\n\n"
pub open spec fn continue_line() -> Seq<u8> {
    seq![72u8, 84u8, 84u8, 80u8, 47u8, 49u8, 46u8, 49u8, 32u8, 49u8, 48u8, 48u8, 32u8, 67u8, 111u8, 110u8, 116u8, 105u8, 110u8, 117u8, 101u8, 10u8, 10u8]
}

/// "HTTP/1.1 100 Continue\n\n"
pub fn continue_line_v() -> (r: Vec<u8>)
    ensures
        r@ == continue_line(),
{
    let r: Vec<u8> = vec![72u8, 84u8, 84u8, 80u8, 47u8, 49u8, 46u8, 49u8, 32u8, 49u8, 48u8, 48u8, 32u8, 67u8, 111u8, 110u8, 116u8, 105u8, 110u8, 117u8, 101u8, 10u8, 10u8];
    proof {
        assert(r@ =~= continue_line());
    }
    r
}

/// "Header Dump:\n"
pub open spec fn dump_head() -> Seq<u8> {
    seq![72u8, 101u8, 97u8, 100u8, 101u8, 114u8, 32u8, 68u8, 117u8, 109u8, 112u8, 58u8, 10u8]
}

/// "Header Dump:\n"
pub fn dump_head_v() -> (r: Vec<u8>)
    ensures
        r@ == dump_head(),
{
    let r: Vec<u8> = vec![72u8, 101u8, 97u8, 100u8, 101u8, 114u8, 32u8, 68u8, 117u8, 109u8, 112u8, 58u8, 10u8];
    proof {
        assert(r@ =~= dump_head());
    }
    r
}

/// " : "
pub open spec fn dump_sep() -> Seq<u8> {
    seq![32u8, 58u8, 32u8]
}

/// " : "
pub fn dump_sep_v() -> (r: Vec<u8>)
    ensures
        r@ == dump_sep(),
{
    let r: Vec<u8> = vec![32u8, 58u8, 32u8];
    proof {
        assert(r@ =~= dump_sep());
    }
    r
}

/// "End Header Dump\n\n"
pub open spec fn dump_tail() -> Seq<u8> {
    seq![69u8, 110u8, 100u8, 32u8, 72u8, 101u8, 97u8, 100u8, 101u8, 114u8, 32u8, 68u8, 117u8, 109u8, 112u8, 10u8, 10u8]
}

/// "End Header Dump\n\n"
pub fn dump_tail_v() -> (r: Vec<u8>)
    ensures
        r@ == dump_tail(),
{
    let r: Vec<u8> = vec![69u8, 110u8, 100u8, 32u8, 72u8, 101u8, 97u8, 100u8, 101u8, 114u8, 32u8, 68u8, 117u8, 109u8, 112u8, 10u8, 10u8];
    proof {
        assert(r@ =~= dump_tail());
    }
    r
}

} // verus!