//! The response writer: a status, a header map and a body buffer
//! accumulate through mutators, and `finalize` turns them into the
//! bytes that go on the wire, appending the mandatory Content-Length
//! and Date headers first.

use vstd::prelude::*;

use crate::lit::{
    content_length, content_length_v, date_name, date_name_v, header_sep, newline,
    status_line_bad_request, status_line_bad_request_v, status_line_not_found,
    status_line_not_found_v, status_line_not_implemented, status_line_not_implemented_v,
    status_line_ok, status_line_ok_v, text_bad_request, text_bad_request_v, text_not_found,
    text_not_found_v, text_not_implemented, text_not_implemented_v,
};
use crate::request::{insert_hdr, HeaderMap, HeaderSeq};

verus! {

/// The statuses a response can carry.
#[derive(Clone, Copy, PartialEq, Eq, Structural, Debug)]
pub enum HttpStatus {
    Okay,
    NotFound,
    NotImplemented,
    BadRequest,
}

/// Decimal digits of `n`, most significant first.
pub open spec fn dec_rep(n: nat) -> Seq<u8>
    decreases n,
{
    if n < 10 {
        seq![(48 + n) as u8]
    } else {
        dec_rep(n / 10).push((48 + n % 10) as u8)
    }
}

/// Decimal digits of `n`, most significant first.
pub fn u64_to_dec(n: u64) -> (r: Vec<u8>)
    ensures
        r@ == dec_rep(n as nat),
    decreases n,
{
    if n < 10 {
        let mut v: Vec<u8> = Vec::new();
        v.push(48 + (n as u8));
        proof {
            assert(v@ =~= dec_rep(n as nat));
        }
        v
    } else {
        let mut v = u64_to_dec(n / 10);
        v.push(48 + ((n % 10) as u8));
        proof {
            assert(v@ =~= dec_rep(n as nat));
        }
        v
    }
}

/// The status line on the wire for each status.
pub open spec fn status_line_of(s: HttpStatus) -> Seq<u8> {
    match s {
        HttpStatus::Okay => status_line_ok(),
        HttpStatus::NotFound => status_line_not_found(),
        HttpStatus::NotImplemented => status_line_not_implemented(),
        HttpStatus::BadRequest => status_line_bad_request(),
    }
}

/// The body that `finalize` imposes: non-OK statuses overwrite
/// whatever was appended with their fixed status text.
pub open spec fn imposed_body(s: HttpStatus, body: Seq<u8>) -> Seq<u8> {
    match s {
        HttpStatus::Okay => body,
        HttpStatus::NotFound => text_not_found(),
        HttpStatus::NotImplemented => text_not_implemented(),
        HttpStatus::BadRequest => text_bad_request(),
    }
}

/// Headers on the wire: `name: value`, one per line, in map order.
pub open spec fn render_headers(hs: HeaderSeq) -> Seq<u8>
    decreases hs.len(),
{
    if hs.len() == 0 {
        Seq::empty()
    } else {
        hs[0].0 + header_sep() + hs[0].1 + newline() + render_headers(hs.skip(1))
    }
}

/// A response, in specification form.
pub struct RespModel {
    pub status: HttpStatus,
    pub headers: HeaderSeq,
    pub body: Seq<u8>,
    pub head_req: bool,
}

/// What `finalize` makes of a response, given the Date header value
/// `date`: the imposed body, then Content-Length (except for HEAD
/// requests), then Date.
pub open spec fn finalize_model(m: RespModel, date: Seq<u8>) -> RespModel {
    let body = imposed_body(m.status, m.body);
    let hs = if !m.head_req {
        insert_hdr(m.headers, content_length(), dec_rep(body.len()))
    } else {
        m.headers
    };
    RespModel {
        status: m.status,
        headers: insert_hdr(hs, date_name(), date),
        body: body,
        head_req: m.head_req,
    }
}

/// The full wire form: status line, headers, a blank line, the body.
pub open spec fn render(m: RespModel) -> Seq<u8> {
    status_line_of(m.status) + render_headers(m.headers) + newline() + m.body
}

/// A response being accumulated for one request.
pub struct HttpResponse {
    pub status: HttpStatus,
    headers: HeaderMap,
    pub buffer: Vec<u8>,
    head_req: bool,
}

impl View for HttpResponse {
    type V = RespModel;

    closed spec fn view(&self) -> RespModel {
        RespModel {
            status: self.status,
            headers: self.headers@,
            body: self.buffer@,
            head_req: self.head_req,
        }
    }
}

/// The Date header value. Relies on time::OffsetDateTime::now_utc
/// and time's formatting of it, e.g. "Mon, 02 Jan 2006 15:04:05 GMT";
/// the value depends on the clock, so nothing is promised of it.
#[verifier::external_body]
fn now_date_line() -> (r: Vec<u8>) {
    let fmt = time::format_description::parse(
        "[weekday repr:short], [day] [month repr:short] [year] [hour]:[minute]:[second] GMT",
    );
    match fmt {
        Ok(f) => match time::OffsetDateTime::now_utc().format(&f) {
            Ok(s) => s.into_bytes(),
            Err(_) => Vec::new(),
        },
        Err(_) => Vec::new(),
    }
}

/// The status line for `status`.
pub fn status_line_bytes(status: HttpStatus) -> (r: Vec<u8>)
    ensures
        r@ == status_line_of(status),
{
    match status {
        HttpStatus::Okay => status_line_ok_v(),
        HttpStatus::NotFound => status_line_not_found_v(),
        HttpStatus::NotImplemented => status_line_not_implemented_v(),
        HttpStatus::BadRequest => status_line_bad_request_v(),
    }
}

impl HttpResponse {
    /// A fresh response: status OK, no headers, an empty body.
    pub fn create_response(head_req: bool) -> (r: HttpResponse)
        ensures
            r@ == (RespModel {
                status: HttpStatus::Okay,
                headers: Seq::empty(),
                body: Seq::empty(),
                head_req: head_req,
            }),
    {
        let r = HttpResponse {
            status: HttpStatus::Okay,
            headers: HeaderMap::new(),
            buffer: Vec::new(),
            head_req: head_req,
        };
        proof {
            assert(r@.headers =~= Seq::<(Seq<u8>, Seq<u8>)>::empty());
            assert(r@.body =~= Seq::<u8>::empty());
        }
        r
    }

    /// Replace the status.
    pub fn set_status(&mut self, status: HttpStatus)
        ensures
            final(self)@ == (RespModel { status: status, ..old(self)@ }),
    {
        self.status = status;
    }

    /// Store `value` under `name`, replacing any previous value.
    pub fn add_header(&mut self, name: Vec<u8>, value: Vec<u8>)
        ensures
            final(self)@ == (RespModel {
                headers: insert_hdr(old(self)@.headers, name@, value@),
                ..old(self)@
            }),
    {
        self.headers.insert(name, value);
    }

    /// Store a header given as borrowed bytes.
    pub fn add_header_str(&mut self, name: &[u8], value: &[u8])
        ensures
            final(self)@ == (RespModel {
                headers: insert_hdr(old(self)@.headers, name@, value@),
                ..old(self)@
            }),
    {
        let mut n: Vec<u8> = Vec::new();
        n.extend_from_slice(name);
        let mut v: Vec<u8> = Vec::new();
        v.extend_from_slice(value);
        proof {
            assert(n@ =~= name@);
            assert(v@ =~= value@);
        }
        self.headers.insert(n, v);
    }

    /// Append bytes to the body buffer.
    pub fn append_string(&mut self, string: Vec<u8>)
        ensures
            final(self)@ == (RespModel { body: old(self)@.body + string@, ..old(self)@ }),
    {
        let mut s = string;
        self.buffer.append(&mut s);
    }

    /// Finish the response and produce its wire bytes: impose the
    /// status text on non-OK bodies, append Content-Length (unless
    /// the request was a HEAD) and Date, then serialize. The Date
    /// value comes from the clock; everything else is pinned.
    pub fn finalize(&mut self) -> (out: Vec<u8>)
        ensures
            exists|d: Seq<u8>|
                {
                    &&& final(self)@ == #[trigger] finalize_model(old(self)@, d)
                    &&& out@ == render(finalize_model(old(self)@, d))
                },
    {
        let ghost m0 = self@;
        match self.status {
            HttpStatus::Okay => {},
            HttpStatus::NotFound => {
                self.buffer = text_not_found_v();
            },
            HttpStatus::NotImplemented => {
                self.buffer = text_not_implemented_v();
            },
            HttpStatus::BadRequest => {
                self.buffer = text_bad_request_v();
            },
        }
        proof {
            assert(self@.body == imposed_body(m0.status, m0.body));
        }
        if !self.head_req {
            let n = self.buffer.len();
            let digits = u64_to_dec(n as u64);
            proof {
                assert((n as u64) as nat == self.buffer@.len());
            }
            self.headers.insert(content_length_v(), digits);
        }
        let date = now_date_line();
        let ghost d = date@;
        self.headers.insert(date_name_v(), date);
        proof {
            assert(self@ == finalize_model(m0, d));
        }
        let mut out = status_line_bytes(self.status);
        let ghost hs = self.headers@;
        let mut i: usize = 0;
        proof {
            assert(hs.skip(0) =~= hs);
        }
        proof {
            assert(out@ + render_headers(hs) =~= status_line_of(self@.status) + render_headers(
                hs,
            ));
        }
        while i < self.headers.len()
            invariant
                i <= hs.len(),
                self@ == finalize_model(m0, d),
                hs == self.headers@,
                out@ + render_headers(hs.skip(i as int)) == status_line_of(self@.status)
                    + render_headers(hs),
            decreases hs.len() - i,
        {
            let ghost out0 = out@;
            let (name, value) = self.headers.entry_at(i);
            out.extend_from_slice(name.as_slice());
            out.extend_from_slice(crate::lit::header_sep_v().as_slice());
            out.extend_from_slice(value.as_slice());
            out.push(10);
            proof {
                let t = hs.skip(i as int);
                assert(t[0] == hs[i as int]);
                assert(t.skip(1) =~= hs.skip(i + 1));
                assert(render_headers(t) == t[0].0 + header_sep() + t[0].1 + newline()
                    + render_headers(hs.skip(i + 1)));
                assert(out@ + render_headers(hs.skip(i + 1)) =~= out0 + render_headers(t));
            }
            i = i + 1;
        }
        proof {
            assert(hs.skip(hs.len() as int) =~= Seq::<(Seq<u8>, Seq<u8>)>::empty());
            assert(out@ + render_headers(hs.skip(hs.len() as int)) =~= out@);
            assert(out@ =~= status_line_of(self@.status) + render_headers(hs));
        }
        out.push(10);
        let mut body = Vec::new();
        body.extend_from_slice(self.buffer.as_slice());
        out.append(&mut body);
        proof {
            assert(out@ =~= render(finalize_model(m0, d)));
            assert(exists|dd: Seq<u8>|
                {
                    &&& self@ == #[trigger] finalize_model(m0, dd)
                    &&& out@ == render(finalize_model(m0, dd))
                });
        }
        out
    }
}

} // verus!
