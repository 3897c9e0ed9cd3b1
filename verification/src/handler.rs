//! The connection handler: dispatches a parsed request to the
//! resolved file, sets the Connection header from the request's
//! keep-alive flag, and loops over request/response cycles while
//! keep-alive holds.
//!
//! The handler is a pure engine: the lines read from the socket and
//! the outcome of each file access come in as values, the wire bytes
//! of each response come out in order.

use vstd::prelude::*;

use crate::lit::{
    close_value, close_value_v, connection_name, connection_name_v, content_length_v,
    content_type, content_type_v, keep_alive_value, keep_alive_value_v,
};
use crate::request::{insert_hdr, parse_at, HttpRequest, ReqModel, RequestType};
use crate::response::{dec_rep, u64_to_dec, HttpResponse, HttpStatus, RespModel};

verus! {

/// What the filesystem gave for one request, by the method's need:
/// the full contents for a GET, the metadata length for a HEAD, or
/// nothing when the path was rejected or the open failed.
pub enum FileAccess {
    /// Content type and file bytes.
    Content(Vec<u8>, Vec<u8>),
    /// Content type and metadata length.
    Size(Vec<u8>, u64),
    /// No readable file.
    Absent,
}

/// `FileAccess`, in specification form.
pub enum FileModel {
    Content(Seq<u8>, Seq<u8>),
    Size(Seq<u8>, u64),
    Absent,
}

impl View for FileAccess {
    type V = FileModel;

    open spec fn view(&self) -> FileModel {
        match self {
            FileAccess::Content(mime, data) => FileModel::Content(mime@, data@),
            FileAccess::Size(mime, len) => FileModel::Size(mime@, *len),
            FileAccess::Absent => FileModel::Absent,
        }
    }
}

impl DeepView for FileAccess {
    type V = FileModel;

    open spec fn deep_view(&self) -> FileModel {
        self@
    }
}

/// What dispatch does to a fresh response: a GET on a found file
/// sets Content-Type and appends the contents; a HEAD on a found
/// file sets Content-Type and Content-Length from the metadata
/// length, leaving the body empty; a miss turns the status to
/// NotFound; any other method turns it to NotImplemented.
pub open spec fn dispatch(rt: RequestType, file: FileModel, m: RespModel) -> RespModel {
    match rt {
        RequestType::Get => match file {
            FileModel::Content(mime, data) => RespModel {
                headers: insert_hdr(m.headers, content_type(), mime),
                body: m.body + data,
                ..m
            },
            _ => RespModel { status: HttpStatus::NotFound, ..m },
        },
        RequestType::Head => match file {
            FileModel::Size(mime, len) => RespModel {
                headers: insert_hdr(
                    insert_hdr(m.headers, content_type(), mime),
                    crate::lit::content_length(),
                    dec_rep(len as nat),
                ),
                ..m
            },
            _ => RespModel { status: HttpStatus::NotFound, ..m },
        },
        RequestType::Other => RespModel { status: HttpStatus::NotImplemented, ..m },
    }
}

/// Route one request into the response, as `dispatch` says.
pub fn handle_request(req: &HttpRequest, res: &mut HttpResponse, file: &FileAccess)
    ensures
        final(res)@ == dispatch(req.request_type, file@, old(res)@),
{
    match req.request_type {
        RequestType::Get => {
            match file {
                FileAccess::Content(mime, data) => {
                    res.add_header_str(content_type_v().as_slice(), mime.as_slice());
                    let mut d: Vec<u8> = Vec::new();
                    d.extend_from_slice(data.as_slice());
                    proof {
                        assert(d@ =~= data@);
                    }
                    res.append_string(d);
                },
                _ => {
                    res.set_status(HttpStatus::NotFound);
                },
            }
        },
        RequestType::Head => {
            match file {
                FileAccess::Size(mime, len) => {
                    res.add_header_str(content_type_v().as_slice(), mime.as_slice());
                    let digits = u64_to_dec(*len);
                    res.add_header(content_length_v(), digits);
                },
                _ => {
                    res.set_status(HttpStatus::NotFound);
                },
            }
        },
        RequestType::Other => {
            res.set_status(HttpStatus::NotImplemented);
        },
    }
}

/// The Connection header value for a keep-alive flag.
pub open spec fn connection_value(keep: bool) -> Seq<u8> {
    if keep {
        keep_alive_value()
    } else {
        close_value()
    }
}

/// The response a cycle accumulates for request `q` and file
/// outcome `file`, before it is finalized: dispatch on a fresh
/// response, then the Connection header.
pub open spec fn cycle_response(q: ReqModel, file: FileModel) -> RespModel {
    let m0 = RespModel {
        status: HttpStatus::Okay,
        headers: Seq::empty(),
        body: Seq::empty(),
        head_req: q.request_type == RequestType::Head,
    };
    let m1 = dispatch(q.request_type, file, m0);
    RespModel {
        headers: insert_hdr(m1.headers, connection_name(), connection_value(q.keep_alive)),
        ..m1
    }
}

/// The file outcome for cycle `k`; no outcome reads as no file.
pub open spec fn file_for(files: Seq<FileModel>, k: int) -> FileModel {
    if 0 <= k < files.len() {
        files[k]
    } else {
        FileModel::Absent
    }
}

/// When a request parses, the lines it consumed move the position
/// strictly forward, and never past the end.
pub proof fn lemma_parse_at_bounds(lines: Seq<Seq<u8>>, start: int)
    requires
        0 <= start,
    ensures
        parse_at(lines, start).1 <= lines.len(),
        start < lines.len() ==> start < parse_at(lines, start).1,
    decreases lines.len() - start,
{
    if start < lines.len() {
        lemma_hdr_scan_bounds(crate::request::init_hdr_state(), lines, start + 1);
    }
}

/// Bounds of the header scan, whatever state it starts in.
proof fn lemma_hdr_scan_bounds(st: crate::request::HdrModel, lines: Seq<Seq<u8>>, i: int)
    requires
        0 <= i,
    ensures
        i < lines.len() ==> i < crate::request::hdr_scan(st, lines, i).1 <= lines.len(),
        i >= lines.len() ==> crate::request::hdr_scan(st, lines, i).1 == lines.len(),
    decreases lines.len() - i,
{
    if i < lines.len() {
        let t = crate::bytes::trim(lines[i]);
        if t.len() == 0 {
        } else {
            match crate::request::hdr_line_spec(st, lines[i]) {
                None => {},
                Some(st2) => {
                    lemma_hdr_scan_bounds(st2, lines, i + 1);
                },
            }
        }
    }
}

/// The responses of one connection: requests are parsed in turn
/// from `pos`, each is answered with the file outcome of its cycle,
/// and the session goes on only while the request asked keep-alive.
/// The bounds on the consumed position in the recursion guard always
/// hold of a parsed request (`lemma_parse_at_bounds`); they stand in
/// the guard so the recursion is visibly bounded.
pub open spec fn session_spec(
    lines: Seq<Seq<u8>>,
    files: Seq<FileModel>,
    pos: int,
    k: int,
) -> Seq<RespModel>
    decreases lines.len() - pos,
    via session_spec_decreases
{
    if pos < 0 || pos >= lines.len() {
        Seq::empty()
    } else {
        let pr = parse_at(lines, pos);
        match pr.0 {
            None => Seq::empty(),
            Some(q) => {
                let m = cycle_response(q, file_for(files, k));
                if q.keep_alive && pos < pr.1 && pr.1 <= lines.len() {
                    seq![m] + session_spec(lines, files, pr.1, k + 1)
                } else {
                    seq![m]
                }
            },
        }
    }
}

#[via_fn]
proof fn session_spec_decreases(lines: Seq<Seq<u8>>, files: Seq<FileModel>, pos: int, k: int) {
}

/// Keep-alive false ends the session after one full cycle: no
/// second request is read.
pub proof fn lemma_close_after_one(lines: Seq<Seq<u8>>, files: Seq<FileModel>)
    requires
        parse_at(lines, 0).0 is Some,
        !parse_at(lines, 0).0.unwrap().keep_alive,
    ensures
        session_spec(lines, files, 0, 0) == seq![
            cycle_response(parse_at(lines, 0).0.unwrap(), file_for(files, 0)),
        ],
{
    if 0 >= lines.len() {
        assert(parse_at(lines, 0).0 is None);
    }
}

/// Two valid requests sent back to back on one keep-alive
/// connection get two responses, in order.
pub proof fn lemma_two_in_order(lines: Seq<Seq<u8>>, files: Seq<FileModel>)
    requires
        parse_at(lines, 0).0 is Some,
        parse_at(lines, 0).0.unwrap().keep_alive,
        parse_at(lines, parse_at(lines, 0).1).0 is Some,
    ensures
        session_spec(lines, files, 0, 0).len() >= 2,
        session_spec(lines, files, 0, 0)[0] == cycle_response(
            parse_at(lines, 0).0.unwrap(),
            file_for(files, 0),
        ),
        session_spec(lines, files, 0, 0)[1] == cycle_response(
            parse_at(lines, parse_at(lines, 0).1).0.unwrap(),
            file_for(files, 1),
        ),
{
    if 0 >= lines.len() {
        assert(parse_at(lines, 0).0 is None);
    }
    lemma_parse_at_bounds(lines, 0);
    let p1 = parse_at(lines, 0).1;
    if p1 >= lines.len() {
        assert(parse_at(lines, p1).0 is None);
    }
    lemma_parse_at_bounds(lines, p1);
    let q0 = parse_at(lines, 0).0.unwrap();
    let m0 = cycle_response(q0, file_for(files, 0));
    assert(session_spec(lines, files, 0, 0) == seq![m0] + session_spec(lines, files, p1, 1));
    let q1 = parse_at(lines, p1).0.unwrap();
    let m1 = cycle_response(q1, file_for(files, 1));
    let s1 = session_spec(lines, files, p1, 1);
    assert(s1.len() >= 1 && s1[0] == m1);
    assert(session_spec(lines, files, 0, 0)[1] == s1[0]);
}

/// A GET answered with file contents is served whole: whatever Date
/// value `d` the clock gave, the finished response has status OK,
/// its body is exactly the file's bytes, Content-Type is the
/// resolved type, and Content-Length is the decimal byte length of
/// the file.
pub proof fn lemma_get_serves_file(q: ReqModel, mime: Seq<u8>, data: Seq<u8>, d: Seq<u8>)
    requires
        q.request_type == RequestType::Get,
    ensures
        ({
            let f = crate::response::finalize_model(
                cycle_response(q, FileModel::Content(mime, data)),
                d,
            );
            &&& f.status == HttpStatus::Okay
            &&& f.body == data
            &&& crate::request::lookup_hdr(f.headers, content_type()) == Some(mime)
            &&& crate::request::lookup_hdr(f.headers, crate::lit::content_length()) == Some(
                dec_rep(data.len()),
            )
        }),
{
    let m = cycle_response(q, FileModel::Content(mime, data));
    assert(Seq::<u8>::empty() + data =~= data);
    let hs0 = insert_hdr(Seq::empty(), content_type(), mime);
    crate::request::lemma_lookup_insert_same(Seq::empty(), content_type(), mime);
    crate::request::lemma_lookup_insert_other(hs0, connection_name(), connection_value(
        q.keep_alive,
    ), content_type());
    let hs1 = insert_hdr(hs0, connection_name(), connection_value(q.keep_alive));
    crate::request::lemma_lookup_insert_same(hs1, crate::lit::content_length(), dec_rep(
        data.len(),
    ));
    crate::request::lemma_lookup_insert_other(hs1, crate::lit::content_length(), dec_rep(
        data.len(),
    ), content_type());
    let hs2 = insert_hdr(hs1, crate::lit::content_length(), dec_rep(data.len()));
    crate::request::lemma_lookup_insert_other(hs2, crate::lit::date_name(), d, content_type());
    crate::request::lemma_lookup_insert_other(
        hs2,
        crate::lit::date_name(),
        d,
        crate::lit::content_length(),
    );
}

/// A GET on a missing or unreadable file is answered NotFound, and
/// the finished body is exactly the literal "404 Not Found".
pub proof fn lemma_get_missing_is_not_found(q: ReqModel, d: Seq<u8>)
    requires
        q.request_type == RequestType::Get,
    ensures
        ({
            let f = crate::response::finalize_model(cycle_response(q, FileModel::Absent), d);
            &&& f.status == HttpStatus::NotFound
            &&& f.body == crate::lit::text_not_found()
        }),
{
}

/// A HEAD answered with a metadata length carries that length as
/// Content-Length (the finalize step adds none of its own for HEAD)
/// and its body buffer stays empty: the writer still emits the body
/// bytes, of which there are none.
pub proof fn lemma_head_reports_length(q: ReqModel, mime: Seq<u8>, len: u64, d: Seq<u8>)
    requires
        q.request_type == RequestType::Head,
    ensures
        ({
            let f = crate::response::finalize_model(cycle_response(q, FileModel::Size(mime, len)), d);
            &&& f.status == HttpStatus::Okay
            &&& f.body == Seq::<u8>::empty()
            &&& f.head_req
            &&& crate::request::lookup_hdr(f.headers, crate::lit::content_length()) == Some(
                dec_rep(len as nat),
            )
            &&& crate::request::lookup_hdr(f.headers, content_type()) == Some(mime)
            &&& crate::response::render(f) == crate::response::status_line_of(HttpStatus::Okay)
                + crate::response::render_headers(f.headers) + crate::lit::newline()
        }),
{
    let hs0 = insert_hdr(Seq::empty(), content_type(), mime);
    crate::request::lemma_lookup_insert_same(Seq::empty(), content_type(), mime);
    crate::request::lemma_lookup_insert_other(hs0, crate::lit::content_length(), dec_rep(
        len as nat,
    ), content_type());
    let hs1 = insert_hdr(hs0, crate::lit::content_length(), dec_rep(len as nat));
    crate::request::lemma_lookup_insert_same(hs0, crate::lit::content_length(), dec_rep(
        len as nat,
    ));
    crate::request::lemma_lookup_insert_other(hs1, connection_name(), connection_value(
        q.keep_alive,
    ), content_type());
    crate::request::lemma_lookup_insert_other(hs1, connection_name(), connection_value(
        q.keep_alive,
    ), crate::lit::content_length());
    let hs2 = insert_hdr(hs1, connection_name(), connection_value(q.keep_alive));
    crate::request::lemma_lookup_insert_other(hs2, crate::lit::date_name(), d, content_type());
    crate::request::lemma_lookup_insert_other(
        hs2,
        crate::lit::date_name(),
        d,
        crate::lit::content_length(),
    );
    let f = crate::response::finalize_model(cycle_response(q, FileModel::Size(mime, len)), d);
    assert(crate::response::render(f) =~= crate::response::status_line_of(HttpStatus::Okay)
        + crate::response::render_headers(f.headers) + crate::lit::newline());
}

/// An unsupported method is answered NotImplemented, with its text
/// as the body.
pub proof fn lemma_other_not_implemented(q: ReqModel, file: FileModel, d: Seq<u8>)
    requires
        q.request_type == RequestType::Other,
    ensures
        ({
            let f = crate::response::finalize_model(cycle_response(q, file), d);
            &&& f.status == HttpStatus::NotImplemented
            &&& f.body == crate::lit::text_not_implemented()
        }),
{
}

/// `out` is the wire form of `m` under some Date header value.
pub open spec fn rendered_under_some_date(out: Seq<u8>, m: RespModel) -> bool {
    exists|d: Seq<u8>|
        out == crate::response::render(#[trigger] crate::response::finalize_model(m, d))
}

/// Serve one connection: parse requests in turn from `lines`,
/// answer the `k`-th with `files[k]`, and stop when a request fails
/// to parse or asked to close. The responses come back in order;
/// each is the rendering of its cycle's response under some Date
/// value.
pub fn handle_client(lines: &Vec<Vec<u8>>, files: &Vec<FileAccess>) -> (r: Vec<Vec<u8>>)
    ensures
        ({
            let models = session_spec(lines.deep_view(), files.deep_view(), 0, 0);
            &&& r@.len() == models.len()
            &&& forall|j: int|
                0 <= j < models.len() ==> #[trigger] rendered_under_some_date(
                    r.deep_view()[j],
                    models[j],
                )
        }),
{
    let ghost dl = lines.deep_view();
    let ghost df = files.deep_view();
    let absent = FileAccess::Absent;
    let mut out: Vec<Vec<u8>> = Vec::new();
    let ghost mut ms = Seq::<RespModel>::empty();
    let mut pos: usize = 0;
    let mut k: usize = 0;
    let mut alive: bool = true;
    proof {
        assert(ms + session_spec(dl, df, 0, 0) =~= session_spec(dl, df, 0, 0));
    }
    while alive
        invariant
            pos <= dl.len(),
            k == out@.len(),
            dl == lines.deep_view(),
            df == files.deep_view(),
            absent@ == FileModel::Absent,
            ms.len() == out@.len(),
            forall|j: int|
                0 <= j < ms.len() ==> #[trigger] rendered_under_some_date(
                    out.deep_view()[j],
                    ms[j],
                ),
            session_spec(dl, df, 0, 0) == ms + (if alive {
                session_spec(dl, df, pos as int, k as int)
            } else {
                Seq::<RespModel>::empty()
            }),
        decreases dl.len() - pos, (if alive {
            1int
        } else {
            0int
        }),
    {
        let ghost pos0 = pos as int;
        let (qopt, next) = HttpRequest::receive_request(lines, pos);
        match qopt {
            None => {
                alive = false;
                proof {
                    assert(session_spec(dl, df, pos0, k as int) =~= Seq::<RespModel>::empty());
                    assert(ms + Seq::<RespModel>::empty() =~= ms);
                }
            },
            Some(q) => {
                proof {
                    lemma_parse_at_bounds(dl, pos0);
                    if pos0 >= dl.len() {
                        assert(parse_at(dl, pos0).0 is None);
                    }
                }
                let head = match q.request_type {
                    RequestType::Head => true,
                    _ => false,
                };
                let file: &FileAccess = if k < files.len() {
                    proof {
                        assert(files.deep_view()[k as int] == files@[k as int]@);
                    }
                    &files[k]
                } else {
                    &absent
                };
                let mut res = HttpResponse::create_response(head);
                handle_request(&q, &mut res, file);
                if q.keep_alive {
                    res.add_header_str(
                        connection_name_v().as_slice(),
                        keep_alive_value_v().as_slice(),
                    );
                } else {
                    res.add_header_str(connection_name_v().as_slice(), close_value_v().as_slice());
                }
                let ghost cm = cycle_response(q@, file_for(df, k as int));
                proof {
                    assert(res@ == cm);
                }
                let bytes = res.finalize();
                let ghost bv = bytes@;
                let ghost odv = out.deep_view();
                let ghost ms0 = ms;
                out.push(bytes);
                proof {
                    ms = ms.push(cm);
                    assert(forall|j: int|
                        0 <= j < odv.len() ==> #[trigger] out.deep_view()[j] == odv[j]);
                    assert(out.deep_view()[odv.len() as int] =~= bv);
                }
                alive = q.keep_alive;
                pos = next;
                k = out.len();
                proof {
                    let tail = if alive {
                        session_spec(dl, df, pos as int, k as int)
                    } else {
                        Seq::<RespModel>::empty()
                    };
                    assert(session_spec(dl, df, pos0, k - 1) == seq![cm] + tail);
                    assert(ms0 + (seq![cm] + tail) =~= ms + tail);
                }
            },
        }
    }
    proof {
        assert(session_spec(dl, df, 0, 0) =~= ms);
    }
    out
}

} // verus!
