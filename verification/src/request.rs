//! The request parser: turns the lines read from a connection into a
//! structured request, or `None` when the connection must be dropped.
//!
//! A request is taken apart as the wire shows it: the request line is
//! split on whitespace and anchored on its last three tokens (method,
//! path, protocol version); header lines follow until a blank line;
//! a `Connection` header decides keep-alive, a `Host` header is
//! recorded and dropped, every other header is stored as given.

use vstd::prelude::*;

use crate::bytes::{bytes_eq, find_first, lower_seq, split_ws, to_lower, tokens, trim, trim_bytes};
use crate::lit::{
    connection_lc, connection_lc_v, dump_head, dump_head_v, dump_sep, dump_sep_v, dump_tail,
    dump_tail_v, get_lc, get_lc_v, head_lc, head_lc_v, host_lc, host_lc_v, http11_lc, http11_lc_v,
    keep_alive_lc, keep_alive_lc_v, newline,
};
use vstd::slice::slice_subrange;

verus! {

/// The method of a request; anything but GET or HEAD is `Other`.
#[derive(Clone, Copy, PartialEq, Eq, Structural, Debug)]
pub enum RequestType {
    Get,
    Head,
    Other,
}

/// Index of the first occurrence of `b` in `s`, or -1.
pub open spec fn find_idx(s: Seq<u8>, b: u8) -> int
    decreases s.len(),
{
    if s.len() == 0 {
        -1
    } else if s[0] == b {
        0
    } else if find_idx(s.skip(1), b) == -1 {
        -1
    } else {
        find_idx(s.skip(1), b) + 1
    }
}

/// `find_idx` agrees with the direct characterisation: if the first
/// `n` bytes differ from `b` and byte `n` (if any) equals `b`, the
/// first occurrence is `n`, or absent when `n` is the length.
pub proof fn lemma_find_idx_exact(s: Seq<u8>, b: u8, n: int)
    requires
        0 <= n <= s.len(),
        forall|k: int| 0 <= k < n ==> s[k] != b,
        n == s.len() || s[n] == b,
    ensures
        find_idx(s, b) == if n == s.len() {
            -1 as int
        } else {
            n
        },
    decreases n,
{
    if n == 0 {
    } else {
        assert(s[0] != b);
        let t = s.skip(1);
        assert(forall|k: int| 0 <= k < n - 1 ==> t[k] == s[k + 1] && t[k] != b);
        if n < s.len() {
            assert(t[n - 1] == s[n]);
        }
        lemma_find_idx_exact(t, b, n - 1);
    }
}

/// Header entries: pairs of name and value, in insertion order.
pub type HeaderSeq = Seq<(Seq<u8>, Seq<u8>)>;

/// No two entries share a name.
pub open spec fn keys_unique(s: HeaderSeq) -> bool {
    forall|i: int, j: int| 0 <= i < j < s.len() ==> (#[trigger] s[i]).0 != (#[trigger] s[j]).0
}

/// Map-style insertion: replace the value in place when the name is
/// present, append otherwise.
pub open spec fn insert_hdr(s: HeaderSeq, k: Seq<u8>, v: Seq<u8>) -> HeaderSeq
    decreases s.len(),
{
    if s.len() == 0 {
        seq![(k, v)]
    } else if s[0].0 == k {
        seq![(k, v)] + s.skip(1)
    } else {
        seq![s[0]] + insert_hdr(s.skip(1), k, v)
    }
}

/// Insertion keeps every name that was present, adds `k`, and keeps
/// names unique.
pub proof fn lemma_insert_hdr(s: HeaderSeq, k: Seq<u8>, v: Seq<u8>)
    ensures
        keys_unique(s) ==> keys_unique(insert_hdr(s, k, v)),
        insert_hdr(s, k, v).len() <= s.len() + 1,
    decreases s.len(),
{
    if s.len() == 0 {
    } else if s[0].0 == k {
        let r = insert_hdr(s, k, v);
        if keys_unique(s) {
            assert forall|i: int, j: int| 0 <= i < j < r.len() implies (#[trigger] r[i]).0 != (
            #[trigger] r[j]).0 by {
                assert(r[j] == s[j]);
                if i > 0 {
                    assert(r[i] == s[i]);
                } else {
                    assert(s[0].0 != s[j].0);
                }
            }
        }
    } else {
        lemma_insert_hdr(s.skip(1), k, v);
        let r = insert_hdr(s, k, v);
        let t = insert_hdr(s.skip(1), k, v);
        if keys_unique(s) {
            assert(keys_unique(s.skip(1)));
            assert forall|i: int, j: int| 0 <= i < j < r.len() implies (#[trigger] r[i]).0 != (
            #[trigger] r[j]).0 by {
                if i > 0 {
                    assert(r[i] == t[i - 1] && r[j] == t[j - 1]);
                } else {
                    assert(r[0] == s[0]);
                    assert(r[j] == t[j - 1]);
                    lemma_insert_hdr_names(s.skip(1), k, v, j - 1);
                }
            }
        }
    }
}

/// Every name in the inserted sequence is `k` or a name of `s`.
proof fn lemma_insert_hdr_names(s: HeaderSeq, k: Seq<u8>, v: Seq<u8>, j: int)
    requires
        0 <= j < insert_hdr(s, k, v).len(),
    ensures
        insert_hdr(s, k, v)[j].0 == k || exists|m: int|
            0 <= m < s.len() && (#[trigger] s[m]).0 == insert_hdr(s, k, v)[j].0,
    decreases s.len(),
{
    if s.len() == 0 {
    } else if s[0].0 == k {
        if j > 0 {
            assert(insert_hdr(s, k, v)[j] == s[j]);
        }
    } else {
        if j > 0 {
            lemma_insert_hdr_names(s.skip(1), k, v, j - 1);
            let r = insert_hdr(s, k, v);
            let t = insert_hdr(s.skip(1), k, v);
            assert(r[j] == t[j - 1]);
            if t[j - 1].0 != k {
                let m = choose|m: int|
                    0 <= m < s.skip(1).len() && (#[trigger] s.skip(1)[m]).0 == t[j - 1].0;
                assert(s[m + 1].0 == r[j].0);
            }
        } else {
            assert(insert_hdr(s, k, v)[0] == s[0]);
        }
    }
}

/// The value stored under `k`, if any.
pub open spec fn lookup_hdr(s: HeaderSeq, k: Seq<u8>) -> Option<Seq<u8>>
    decreases s.len(),
{
    if s.len() == 0 {
        None
    } else if s[0].0 == k {
        Some(s[0].1)
    } else {
        lookup_hdr(s.skip(1), k)
    }
}

/// After an insertion, the inserted name maps to the new value.
pub proof fn lemma_lookup_insert_same(s: HeaderSeq, k: Seq<u8>, v: Seq<u8>)
    ensures
        lookup_hdr(insert_hdr(s, k, v), k) == Some(v),
    decreases s.len(),
{
    if s.len() == 0 {
    } else if s[0].0 == k {
        assert(insert_hdr(s, k, v)[0] == (k, v));
    } else {
        lemma_lookup_insert_same(s.skip(1), k, v);
        let r = insert_hdr(s, k, v);
        assert(r[0] == s[0]);
        assert(r.skip(1) =~= insert_hdr(s.skip(1), k, v));
    }
}

/// An insertion leaves every other name's value alone.
pub proof fn lemma_lookup_insert_other(s: HeaderSeq, k: Seq<u8>, v: Seq<u8>, k2: Seq<u8>)
    requires
        k2 != k,
    ensures
        lookup_hdr(insert_hdr(s, k, v), k2) == lookup_hdr(s, k2),
    decreases s.len(),
{
    if s.len() == 0 {
        assert(insert_hdr(s, k, v)[0] == (k, v));
        assert(insert_hdr(s, k, v).skip(1) =~= Seq::<(Seq<u8>, Seq<u8>)>::empty());
        assert(lookup_hdr(Seq::<(Seq<u8>, Seq<u8>)>::empty(), k2) is None);
    } else if s[0].0 == k {
        let r = insert_hdr(s, k, v);
        assert(r[0] == (k, v));
        assert(r.skip(1) =~= s.skip(1));
    } else {
        lemma_lookup_insert_other(s.skip(1), k, v, k2);
        let r = insert_hdr(s, k, v);
        assert(r[0] == s[0]);
        assert(r.skip(1) =~= insert_hdr(s.skip(1), k, v));
    }
}

/// The retained headers of a request or a response, a map from name
/// to value that keeps insertion order.
pub struct HeaderMap {
    entries: Vec<(Vec<u8>, Vec<u8>)>,
}

impl View for HeaderMap {
    type V = HeaderSeq;

    closed spec fn view(&self) -> HeaderSeq {
        self.entries.deep_view()
    }
}

impl HeaderMap {
    /// The empty map.
    pub fn new() -> (r: HeaderMap)
        ensures
            r@ == Seq::<(Seq<u8>, Seq<u8>)>::empty(),
    {
        let r = HeaderMap { entries: Vec::new() };
        proof {
            assert(r@ =~= Seq::<(Seq<u8>, Seq<u8>)>::empty());
        }
        r
    }

    /// Number of entries.
    pub fn len(&self) -> (r: usize)
        ensures
            r == self@.len(),
    {
        self.entries.len()
    }

    /// The entry at position `i`, as name and value.
    pub fn entry_at(&self, i: usize) -> (r: (&Vec<u8>, &Vec<u8>))
        requires
            i < self@.len(),
        ensures
            (r.0@, r.1@) == self@[i as int],
    {
        let e = &self.entries[i];
        (&e.0, &e.1)
    }

    /// Store `value` under `name`, replacing any previous value.
    pub fn insert(&mut self, name: Vec<u8>, value: Vec<u8>)
        ensures
            final(self)@ == insert_hdr(old(self)@, name@, value@),
    {
        let ghost s = self@;
        let ghost es = self.entries@;
        let ghost kv = (name@, value@);
        let mut i: usize = 0;
        while i < self.entries.len()
            invariant
                i <= self.entries.len(),
                self@ == s,
                old(self)@ == s,
                self.entries@ == es,
                kv == (name@, value@),
                forall|k: int| 0 <= k < i ==> (#[trigger] s[k]).0 != name@,
            decreases self.entries.len() - i,
        {
            proof {
                assert(s[i as int] == (
                    self.entries@[i as int].0.deep_view(),
                    self.entries@[i as int].1.deep_view(),
                ));
                assert(self.entries@[i as int].0.deep_view() =~= self.entries@[i as int].0@);
                assert(self.entries@[i as int].1.deep_view() =~= self.entries@[i as int].1@);
            }
            if bytes_eq(self.entries[i].0.as_slice(), name.as_slice()) {
                proof {
                    assert(s[i as int].0 == name@);
                    lemma_insert_hdr_prefix(s, name@, value@, i as int);
                    let u = s.skip(i as int);
                    assert(u.len() == s.len() - i > 0);
                    assert(u[0] == s[i as int]);
                    assert(u[0].0 == name@);
                    assert(insert_hdr(u, name@, value@) == seq![(name@, value@)] + u.skip(1));
                    assert(u.skip(1) =~= s.skip(i + 1));
                    assert(name.deep_view() =~= kv.0);
                    assert(value.deep_view() =~= kv.1);
                }
                let _ = self.entries.remove(i);
                self.entries.insert(i, (name, value));
                proof {
                    let ns = self.entries@;
                    let rhs = s.take(i as int) + (seq![kv] + s.skip(i + 1));
                    assert(ns.len() == es.len());
                    assert(ns[i as int] == (name, value));
                    assert(ns[i as int].0.deep_view() == kv.0);
                    assert(ns[i as int].1.deep_view() == kv.1);
                    assert forall|k: int| 0 <= k < ns.len() implies #[trigger] self@[k] == rhs[k] by {
                        assert(self@[k] == (ns[k].0.deep_view(), ns[k].1.deep_view()));
                        if k < i {
                            assert(ns[k] == es[k]);
                            assert(s[k] == (es[k].0.deep_view(), es[k].1.deep_view()));
                            assert(rhs[k] == s[k]);
                        } else if k == i {
                            assert(rhs[k] == kv);
                        } else {
                            assert(ns[k] == es[k]);
                            assert(s[k] == (es[k].0.deep_view(), es[k].1.deep_view()));
                            assert(rhs[k] == s.skip(i + 1)[k - i - 1]);
                            assert(s.skip(i + 1)[k - i - 1] == s[k]);
                        }
                    }
                    assert(self@ =~= rhs);
                }
                return ;
            }
            i = i + 1;
        }
        proof {
            lemma_insert_hdr_prefix(s, name@, value@, s.len() as int);
            assert(s.skip(s.len() as int) =~= Seq::<(Seq<u8>, Seq<u8>)>::empty());
        }
        self.entries.push((name, value));
        proof {
            assert(self@ =~~= s.take(s.len() as int) + seq![kv]);
        }
    }

    /// The value stored under `name`, if any.
    pub fn get(&self, name: &[u8]) -> (r: Option<&Vec<u8>>)
        ensures
            match r {
                Some(v) => lookup_hdr(self@, name@) == Some(v@),
                None => lookup_hdr(self@, name@) is None,
            },
    {
        proof {
            assert(self@.skip(0) =~= self@);
        }
        let mut i: usize = 0;
        while i < self.entries.len()
            invariant
                i <= self.entries.len(),
                lookup_hdr(self@, name@) == lookup_hdr(self@.skip(i as int), name@),
            decreases self.entries.len() - i,
        {
            proof {
                let t = self@.skip(i as int);
                assert(t[0] == self@[i as int]);
                assert(t.skip(1) =~= self@.skip(i + 1));
                assert(self@[i as int] == (
                    self.entries@[i as int].0.deep_view(),
                    self.entries@[i as int].1.deep_view(),
                ));
                assert(self.entries@[i as int].0.deep_view() =~= self.entries@[i as int].0@);
                assert(self.entries@[i as int].1.deep_view() =~= self.entries@[i as int].1@);
            }
            if bytes_eq(self.entries[i].0.as_slice(), name) {
                return Some(&self.entries[i].1);
            }
            i = i + 1;
        }
        None
    }
}

/// If the first `i` names differ from `k`, inserting walks past them.
proof fn lemma_insert_hdr_prefix(s: HeaderSeq, k: Seq<u8>, v: Seq<u8>, i: int)
    requires
        0 <= i <= s.len(),
        forall|m: int| 0 <= m < i ==> (#[trigger] s[m]).0 != k,
    ensures
        insert_hdr(s, k, v) == s.take(i) + insert_hdr(s.skip(i), k, v),
    decreases i,
{
    if i == 0 {
        assert(s.take(0) =~= Seq::<(Seq<u8>, Seq<u8>)>::empty());
        assert(s.skip(0) =~= s);
        assert(s.take(0) + insert_hdr(s, k, v) =~= insert_hdr(s, k, v));
    } else {
        assert(s.len() > 0 && s[0].0 != k);
        let t = s.skip(1);
        assert(forall|m: int| 0 <= m < i - 1 ==> (#[trigger] t[m]) == s[m + 1]);
        lemma_insert_hdr_prefix(t, k, v, i - 1);
        assert(t.take(i - 1) =~= s.subrange(1, i));
        assert(t.skip(i - 1) =~= s.skip(i));
        assert(seq![s[0]] + (s.subrange(1, i) + insert_hdr(s.skip(i), k, v)) =~= s.take(i)
            + insert_hdr(s.skip(i), k, v));
    }
}

/// The parser's state while the header block is read.
pub struct HdrModel {
    pub keep_alive: bool,
    pub got_host: bool,
    pub headers: HeaderSeq,
}

/// Before any header line: keep-alive defaults to true, no `Host`
/// seen, no headers retained.
pub open spec fn init_hdr_state() -> HdrModel {
    HdrModel { keep_alive: true, got_host: false, headers: Seq::empty() }
}

/// Effect of one non-blank header line: split on the first colon
/// (none: the line is malformed and parsing fails), trim name and
/// value; `connection` drives keep-alive, `host` is recorded and
/// dropped, anything else is stored as given.
pub open spec fn hdr_line_spec(st: HdrModel, line: Seq<u8>) -> Option<HdrModel> {
    let t = trim(line);
    let c = find_idx(t, 58);
    if c < 0 {
        None
    } else {
        let name = trim(t.take(c));
        let value = trim(t.skip(c + 1));
        let lname = lower_seq(name);
        if lname == connection_lc() {
            Some(
                HdrModel {
                    keep_alive: lower_seq(value) == keep_alive_lc(),
                    got_host: st.got_host,
                    headers: st.headers,
                },
            )
        } else if lname == host_lc() {
            Some(HdrModel { keep_alive: st.keep_alive, got_host: true, headers: st.headers })
        } else {
            Some(
                HdrModel {
                    keep_alive: st.keep_alive,
                    got_host: st.got_host,
                    headers: insert_hdr(st.headers, name, value),
                },
            )
        }
    }
}

/// Keep-alive is derived solely from `Connection` headers: a line
/// moves the flag only when its name reads `connection`, and then
/// exactly to whether its value reads `keep-alive`, both
/// case-insensitively.
pub proof fn lemma_keep_alive_from_connection(st: HdrModel, line: Seq<u8>)
    requires
        hdr_line_spec(st, line) is Some,
    ensures
        ({
            let t = trim(line);
            let c = find_idx(t, 58);
            let name = lower_seq(trim(t.take(c)));
            let value = lower_seq(trim(t.skip(c + 1)));
            hdr_line_spec(st, line).unwrap().keep_alive == if name == connection_lc() {
                value == keep_alive_lc()
            } else {
                st.keep_alive
            }
        }),
{
}

/// Read header lines from position `i` until a blank line. The
/// result is the final state and the position after the blank line;
/// `None` when a line is malformed or the lines run out first.
pub open spec fn hdr_scan(st: HdrModel, lines: Seq<Seq<u8>>, i: int) -> (Option<HdrModel>, int)
    decreases lines.len() - i,
{
    if i < 0 || i >= lines.len() {
        (None, lines.len() as int)
    } else {
        let t = trim(lines[i]);
        if t.len() == 0 {
            (Some(st), i + 1)
        } else {
            match hdr_line_spec(st, lines[i]) {
                None => (None, i + 1),
                Some(st2) => hdr_scan(st2, lines, i + 1),
            }
        }
    }
}

/// The method named by a token, case-insensitively.
pub open spec fn method_of(tok: Seq<u8>) -> RequestType {
    if lower_seq(tok) == get_lc() {
        RequestType::Get
    } else if lower_seq(tok) == head_lc() {
        RequestType::Head
    } else {
        RequestType::Other
    }
}

/// Reading of the request line: after trimming it must be at least
/// 10 bytes and hold at least three whitespace tokens. The last
/// token is the protocol version, the one before it the path, the
/// one before that the method.
pub open spec fn req_line_spec(line: Seq<u8>) -> Option<(RequestType, Seq<u8>, bool)> {
    let t = trim(line);
    let ts = tokens(t);
    if t.len() < 10 || ts.len() < 3 {
        None
    } else {
        Some(
            (
                method_of(ts[ts.len() - 3]),
                ts[ts.len() - 2],
                lower_seq(ts[ts.len() - 1]) == http11_lc(),
            ),
        )
    }
}

/// A parsed request, in specification form.
pub struct ReqModel {
    pub same_spec: bool,
    pub request_type: RequestType,
    pub path: Seq<u8>,
    pub keep_alive: bool,
    pub headers: HeaderSeq,
}

/// Parse one request from `lines` at position `start`: the request
/// line, then headers up to a blank line. The request is returned
/// only if a `Host` header was seen or the protocol is not HTTP/1.1.
/// The second component is the position after the consumed lines.
pub open spec fn parse_at(lines: Seq<Seq<u8>>, start: int) -> (Option<ReqModel>, int) {
    if start < 0 || start >= lines.len() {
        (None, lines.len() as int)
    } else {
        match req_line_spec(lines[start]) {
            None => (None, start + 1),
            Some((rt, path, same)) => {
                let scanned = hdr_scan(init_hdr_state(), lines, start + 1);
                match scanned.0 {
                    None => (None, scanned.1),
                    Some(st) => {
                        if st.got_host || !same {
                            (
                                Some(
                                    ReqModel {
                                        same_spec: same,
                                        request_type: rt,
                                        path: path,
                                        keep_alive: st.keep_alive,
                                        headers: st.headers,
                                    },
                                ),
                                scanned.1,
                            )
                        } else {
                            (None, scanned.1)
                        }
                    },
                }
            },
        }
    }
}

/// A parsed request.
pub struct HttpRequest {
    pub same_spec: bool,
    pub request_type: RequestType,
    pub path: Vec<u8>,
    pub keep_alive: bool,
    pub headers: HeaderMap,
}

impl View for HttpRequest {
    type V = ReqModel;

    open spec fn view(&self) -> ReqModel {
        ReqModel {
            same_spec: self.same_spec,
            request_type: self.request_type,
            path: self.path@,
            keep_alive: self.keep_alive,
            headers: self.headers@,
        }
    }
}

/// Parse a request line. `Some` holds the method, the path and
/// whether the version token is HTTP/1.1 (the moment at which an
/// interim `100 Continue` is owed to the client).
pub fn parse_request_line(line: &Vec<u8>) -> (r: Option<(RequestType, Vec<u8>, bool)>)
    ensures
        match r {
            Some(p) => req_line_spec(line@) == Some((p.0, p.1@, p.2)),
            None => req_line_spec(line@) is None,
        },
{
    let t = trim_bytes(line.as_slice());
    if t.len() < 10 {
        return None;
    }
    let toks = split_ws(t.as_slice());
    if toks.len() < 3 {
        return None;
    }
    let n = toks.len();
    let version = &toks[n - 1];
    let path = &toks[n - 2];
    let method = &toks[n - 3];
    proof {
        assert(toks.deep_view()[n - 1] =~= version@);
        assert(toks.deep_view()[n - 2] =~= path@);
        assert(toks.deep_view()[n - 3] =~= method@);
    }
    let lv = to_lower(version.as_slice());
    let same = bytes_eq(lv.as_slice(), http11_lc_v().as_slice());
    let lm = to_lower(method.as_slice());
    let rt: RequestType = if bytes_eq(lm.as_slice(), get_lc_v().as_slice()) {
        RequestType::Get
    } else if bytes_eq(lm.as_slice(), head_lc_v().as_slice()) {
        RequestType::Head
    } else {
        RequestType::Other
    };
    let p = path.clone();
    proof {
        assert(p@ =~= path@);
    }
    Some((rt, p, same))
}

/// What one header line did to the builder.
pub enum LineOutcome {
    /// A blank line: the header block is over.
    Done,
    /// A header line was taken in.
    More,
    /// The line holds no colon: parsing fails.
    Bad,
}

/// The parser's state while the header block is read.
pub struct HeaderBuilder {
    pub keep_alive: bool,
    pub got_host: bool,
    pub headers: HeaderMap,
}

impl View for HeaderBuilder {
    type V = HdrModel;

    open spec fn view(&self) -> HdrModel {
        HdrModel { keep_alive: self.keep_alive, got_host: self.got_host, headers: self.headers@ }
    }
}

impl HeaderBuilder {
    /// The state before any header line.
    pub fn new() -> (r: HeaderBuilder)
        ensures
            r@ == init_hdr_state(),
    {
        let r = HeaderBuilder { keep_alive: true, got_host: false, headers: HeaderMap::new() };
        proof {
            assert(r@.headers =~= init_hdr_state().headers);
        }
        r
    }

    /// Take in one header line, as `hdr_line_spec` says.
    pub fn add_line(&mut self, line: &Vec<u8>) -> (r: LineOutcome)
        ensures
            match r {
                LineOutcome::Done => trim(line@).len() == 0 && final(self)@ == old(self)@,
                LineOutcome::More => trim(line@).len() > 0 && hdr_line_spec(old(self)@, line@)
                    == Some(final(self)@),
                LineOutcome::Bad => trim(line@).len() > 0 && hdr_line_spec(old(self)@, line@)
                    is None && final(self)@ == old(self)@,
            },
    {
        let t = trim_bytes(line.as_slice());
        if t.len() == 0 {
            return LineOutcome::Done;
        }
        match find_first(t.as_slice(), 58) {
            None => {
                proof {
                    lemma_find_idx_exact(t@, 58, t@.len() as int);
                }
                LineOutcome::Bad
            },
            Some(c) => {
                proof {
                    lemma_find_idx_exact(t@, 58, c as int);
                }
                let name = trim_bytes(slice_subrange(t.as_slice(), 0, c));
                let value = trim_bytes(slice_subrange(t.as_slice(), c + 1, t.len()));
                proof {
                    assert(t@.subrange(0, c as int) =~= t@.take(c as int));
                    assert(t@.subrange(c + 1, t@.len() as int) =~= t@.skip(c + 1));
                }
                let lname = to_lower(name.as_slice());
                if bytes_eq(lname.as_slice(), connection_lc_v().as_slice()) {
                    let lvalue = to_lower(value.as_slice());
                    self.keep_alive = bytes_eq(lvalue.as_slice(), keep_alive_lc_v().as_slice());
                    LineOutcome::More
                } else if bytes_eq(lname.as_slice(), host_lc_v().as_slice()) {
                    self.got_host = true;
                    LineOutcome::More
                } else {
                    self.headers.insert(name, value);
                    LineOutcome::More
                }
            },
        }
    }
}

impl HttpRequest {
    /// Parse one request from the lines read off a connection,
    /// starting at `start`. `None` means the connection is to be
    /// dropped: the request line was short or short of tokens, a
    /// header line was malformed, the lines ran out before a blank
    /// line, or an HTTP/1.1 request carried no `Host` header. The
    /// second component is the position after the consumed lines.
    pub fn receive_request(lines: &Vec<Vec<u8>>, start: usize) -> (r: (
        Option<HttpRequest>,
        usize,
    ))
        ensures
            ({
                let pr = parse_at(lines.deep_view(), start as int);
                &&& r.1 == pr.1
                &&& match (r.0, pr.0) {
                    (Some(q), Some(m)) => q@ == m,
                    (None, None) => true,
                    _ => false,
                }
            }),
    {
        let ghost dv = lines.deep_view();
        proof {
            assert(dv.len() == lines@.len());
        }
        if start >= lines.len() {
            return (None, lines.len());
        }
        proof {
            assert(dv[start as int] =~= lines@[start as int]@);
        }
        match parse_request_line(&lines[start]) {
            None => (None, start + 1),
            Some((rt, path, same)) => {
                let mut st = HeaderBuilder::new();
                let mut i: usize = start + 1;
                let mut done: bool = false;
                let mut bad: bool = false;
                while !done && !bad && i < lines.len()
                    invariant
                        start + 1 <= i <= lines@.len(),
                        dv == lines.deep_view(),
                        dv.len() == lines@.len(),
                        !done && !bad ==> hdr_scan(init_hdr_state(), dv, start + 1) == hdr_scan(
                            st@,
                            dv,
                            i as int,
                        ),
                        done ==> hdr_scan(init_hdr_state(), dv, start + 1) == (
                            Some(st@),
                            i as int,
                        ),
                        bad ==> hdr_scan(init_hdr_state(), dv, start + 1) == (
                            None::<HdrModel>,
                            i as int,
                        ),
                    decreases lines@.len() - i,
                {
                    proof {
                        assert(dv[i as int] =~= lines@[i as int]@);
                    }
                    let ghost st_before = st@;
                    match st.add_line(&lines[i]) {
                        LineOutcome::Done => {
                            done = true;
                        },
                        LineOutcome::More => {
                        },
                        LineOutcome::Bad => {
                            bad = true;
                        },
                    }
                    proof {
                        assert(hdr_scan(st_before, dv, i as int) == if trim(dv[i as int]).len()
                            == 0 {
                            (Some(st_before), i + 1)
                        } else {
                            match hdr_line_spec(st_before, dv[i as int]) {
                                None => (None::<HdrModel>, i + 1),
                                Some(st2) => hdr_scan(st2, dv, i + 1),
                            }
                        });
                    }
                    i = i + 1;
                }
                if done {
                    if st.got_host || !same {
                        let q = HttpRequest {
                            same_spec: same,
                            request_type: rt,
                            path: path,
                            keep_alive: st.keep_alive,
                            headers: st.headers,
                        };
                        (Some(q), i)
                    } else {
                        (None, i)
                    }
                } else {
                    if bad {
                        (None, i)
                    } else {
                        (None, lines.len())
                    }
                }
            },
        }
    }

    /// The header dump, as it is logged: a head line, `name : value`
    /// per retained header, a tail line.
    pub fn dump_headers(&self) -> (r: Vec<u8>)
        ensures
            r@ == dump_spec(self@.headers),
    {
        let ghost hs = self.headers@;
        let mut r = dump_head_v();
        proof {
            assert(hs.skip(0) =~= hs);
            assert(r@ + render_dump(hs) =~= dump_head() + render_dump(hs));
        }
        let mut i: usize = 0;
        while i < self.headers.len()
            invariant
                i <= hs.len(),
                hs == self.headers@,
                r@ + render_dump(hs.skip(i as int)) == dump_head() + render_dump(hs),
            decreases hs.len() - i,
        {
            let ghost r0 = r@;
            let (name, value) = self.headers.entry_at(i);
            r.extend_from_slice(name.as_slice());
            r.extend_from_slice(dump_sep_v().as_slice());
            r.extend_from_slice(value.as_slice());
            r.push(10);
            proof {
                let t = hs.skip(i as int);
                assert(t[0] == hs[i as int]);
                assert(t.skip(1) =~= hs.skip(i + 1));
                assert(render_dump(t) == t[0].0 + dump_sep() + t[0].1 + newline() + render_dump(
                    hs.skip(i + 1),
                ));
                assert(r@ + render_dump(hs.skip(i + 1)) =~= r0 + render_dump(t));
            }
            i = i + 1;
        }
        proof {
            assert(hs.skip(hs.len() as int) =~= Seq::<(Seq<u8>, Seq<u8>)>::empty());
            assert(r@ + render_dump(hs.skip(hs.len() as int)) =~= r@);
        }
        let mut tail = dump_tail_v();
        r.append(&mut tail);
        proof {
            assert(r@ =~= dump_spec(hs));
        }
        r
    }
}

/// One dumped header line per entry: `name : value`.
pub open spec fn render_dump(hs: HeaderSeq) -> Seq<u8>
    decreases hs.len(),
{
    if hs.len() == 0 {
        Seq::empty()
    } else {
        hs[0].0 + dump_sep() + hs[0].1 + newline() + render_dump(hs.skip(1))
    }
}

/// The whole header dump.
pub open spec fn dump_spec(hs: HeaderSeq) -> Seq<u8> {
    dump_head() + render_dump(hs) + dump_tail()
}

/// A valid request line followed by a well-formed header block that
/// saw a `Host` header (or a protocol other than HTTP/1.1) parses to
/// a request carrying exactly the method, path and version flag of
/// the request line, with keep-alive and the header map as the
/// header scan left them; in every other case nothing is returned.
pub proof fn lemma_request_parsed(lines: Seq<Seq<u8>>, start: int)
    requires
        0 <= start < lines.len(),
    ensures
        ({
            let pr = parse_at(lines, start);
            match (req_line_spec(lines[start]), hdr_scan(init_hdr_state(), lines, start + 1).0) {
                (Some((rt, path, same)), Some(st)) => {
                    if st.got_host || !same {
                        pr.0 == Some(
                            ReqModel {
                                same_spec: same,
                                request_type: rt,
                                path: path,
                                keep_alive: st.keep_alive,
                                headers: st.headers,
                            },
                        )
                    } else {
                        pr.0 is None
                    }
                },
                _ => pr.0 is None,
            }
        }),
{
}

/// The header scan keeps names unique: the retained headers are a
/// map, later values replacing earlier ones in place.
proof fn lemma_hdr_scan_unique(st: HdrModel, lines: Seq<Seq<u8>>, i: int)
    requires
        keys_unique(st.headers),
    ensures
        hdr_scan(st, lines, i).0 matches Some(st2) ==> keys_unique(st2.headers),
    decreases lines.len() - i,
{
    if 0 <= i < lines.len() {
        let t = trim(lines[i]);
        if t.len() == 0 {
        } else {
            match hdr_line_spec(st, lines[i]) {
                None => {},
                Some(st2) => {
                    let c = find_idx(t, 58);
                    let name = trim(t.take(c));
                    let value = trim(t.skip(c + 1));
                    lemma_insert_hdr(st.headers, name, value);
                    lemma_hdr_scan_unique(st2, lines, i + 1);
                },
            }
        }
    }
}

/// A parsed request's header map holds each name once.
pub proof fn lemma_headers_unique(lines: Seq<Seq<u8>>, start: int)
    requires
        parse_at(lines, start).0 is Some,
    ensures
        keys_unique(parse_at(lines, start).0.unwrap().headers),
{
    lemma_hdr_scan_unique(init_hdr_state(), lines, start + 1);
}

/// An HTTP/1.1 request whose header block holds no `Host` header
/// yields nothing: the connection is dropped.
pub proof fn lemma_host_required(lines: Seq<Seq<u8>>, start: int)
    requires
        0 <= start < lines.len(),
        req_line_spec(lines[start]) is Some,
        req_line_spec(lines[start]).unwrap().2,
        hdr_scan(init_hdr_state(), lines, start + 1).0 is Some,
        !hdr_scan(init_hdr_state(), lines, start + 1).0.unwrap().got_host,
    ensures
        parse_at(lines, start).0 is None,
{
}

} // verus!
