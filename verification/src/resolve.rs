//! The path resolver: rewrites "/" to "/index.html", rejects any
//! path holding "..", joins the served root and the path by plain
//! concatenation, and derives the content type from the extension.

use vstd::prelude::*;

use crate::bytes::{bytes_eq, contains_dotdot, has_dotdot};
use crate::lit::{index_html, index_html_v, octet_stream, octet_stream_v, slash, slash_v};
use vstd::slice::{slice_subrange, slice_to_vec};

verus! {

/// What mime_guess knows for a file extension: a content type for
/// the extensions in its table, nothing otherwise.
pub uninterp spec fn mime_of_ext(ext: Seq<u8>) -> Option<Seq<u8>>;

/// Relies on mime_guess::from_ext(..).first_raw(): the content type
/// registered for a file extension. The table is fixed, so the
/// result is a function of the extension bytes alone; it is absent
/// when the extension is empty, unknown, or not UTF-8.
#[verifier::external_body]
fn mime_lookup(ext: &Vec<u8>) -> (r: Option<Vec<u8>>)
    ensures
        (r is Some) == (mime_of_ext(ext@) is Some),
        r matches Some(m) ==> mime_of_ext(ext@) == Some(m@),
        ext@.len() == 0 ==> r is None,
{
    match core::str::from_utf8(ext.as_slice()) {
        Ok(e) => mime_guess::from_ext(e).first_raw().map(|m| m.as_bytes().to_vec()),
        Err(_) => None,
    }
}

/// Index of the last occurrence of `b` in `s`, or -1.
pub open spec fn rfind(s: Seq<u8>, b: u8) -> int
    decreases s.len(),
{
    if s.len() == 0 {
        -1
    } else if s[s.len() - 1] == b {
        s.len() - 1
    } else {
        rfind(s.take(s.len() - 1), b)
    }
}

/// `rfind` agrees with the direct characterisation.
pub proof fn lemma_rfind_exact(s: Seq<u8>, b: u8, n: int)
    requires
        -1 <= n < s.len(),
        n >= 0 ==> s[n] == b,
        forall|k: int| n < k < s.len() ==> s[k] != b,
    ensures
        rfind(s, b) == n,
    decreases s.len(),
{
    if s.len() > 0 {
        if n == s.len() - 1 {
        } else {
            assert(s[s.len() - 1] != b);
            let t = s.take(s.len() - 1);
            assert(forall|k: int| n < k < t.len() ==> t[k] == s[k] && t[k] != b);
            if n >= 0 {
                assert(t[n] == s[n]);
            }
            lemma_rfind_exact(t, b, n);
        }
    }
}

/// The final component of a path: everything after the last '/',
/// or the whole path when it has none.
pub open spec fn file_name_of(p: Seq<u8>) -> Seq<u8> {
    p.skip(rfind(p, 47) + 1)
}

/// The extension of a path: what follows the last '.' of the final
/// component, absent when the component has no '.' or starts with
/// its only '.'.
pub open spec fn extension_of(p: Seq<u8>) -> Option<Seq<u8>> {
    let f = file_name_of(p);
    let d = rfind(f, 46);
    if d <= 0 {
        None
    } else {
        Some(f.skip(d + 1))
    }
}

/// The content type served for a path: the mime table's entry for
/// its extension, or "application/octet-stream" when the path has no
/// extension or the table has no entry.
pub open spec fn content_type_of(p: Seq<u8>) -> Seq<u8> {
    match extension_of(p) {
        None => octet_stream(),
        Some(e) => match mime_of_ext(e) {
            Some(m) => m,
            None => octet_stream(),
        },
    }
}

/// The request path after the index rewrite: "/" turns into
/// "/index.html", everything else stays.
pub open spec fn rewritten_path(p: Seq<u8>) -> Seq<u8> {
    if p == slash() {
        index_html()
    } else {
        p
    }
}

/// Path resolution: "/" goes to "/index.html" under the root, and
/// that rewritten path passes the traversal guard, so the root is
/// always resolved; any other path stands as given and is rejected
/// exactly when it holds "..".
pub proof fn lemma_root_resolves(p: Seq<u8>)
    ensures
        p == slash() ==> rewritten_path(p) == index_html() && !has_dotdot(rewritten_path(p)),
        p != slash() ==> rewritten_path(p) == p,
{
    assert forall|i: int| 0 <= i && i + 1 < index_html().len() implies !(#[trigger] index_html()[i]
        == 46 && index_html()[i + 1] == 46) by {
        if index_html()[i] == 46 {
            assert(i == 6);
        }
    }
}

/// Index of the last occurrence of `b`, if any.
fn rfind_byte(v: &[u8], b: u8) -> (r: Option<usize>)
    ensures
        match r {
            Some(i) => i < v@.len() && rfind(v@, b) == i as int,
            None => rfind(v@, b) == -1,
        },
{
    let mut i: usize = v.len();
    while i > 0
        invariant
            i <= v.len(),
            forall|k: int| i <= k < v@.len() ==> v@[k] != b,
        decreases i,
    {
        i = i - 1;
        if v[i] == b {
            proof {
                lemma_rfind_exact(v@, b, i as int);
            }
            return Some(i);
        }
    }
    proof {
        lemma_rfind_exact(v@, b, -1);
    }
    None
}

/// The extension of a path, as `extension_of` defines it.
pub fn extension_bytes(p: &[u8]) -> (r: Option<Vec<u8>>)
    ensures
        match r {
            Some(e) => extension_of(p@) == Some(e@),
            None => extension_of(p@) is None,
        },
{
    let n = p.len();
    let fstart: usize = match rfind_byte(p, 47) {
        Some(i) => i + 1,
        None => 0,
    };
    let f = slice_subrange(p, fstart, n);
    proof {
        assert(f@ =~= file_name_of(p@));
    }
    match rfind_byte(f, 46) {
        None => None,
        Some(d) => {
            if d == 0 {
                None
            } else {
                let e = slice_to_vec(slice_subrange(f, d + 1, f.len()));
                proof {
                    assert(e@ =~= file_name_of(p@).skip(d + 1));
                }
                Some(e)
            }
        },
    }
}

/// Resolve a request path against the served root. `Some` holds the
/// full filesystem path (root and path joined as given) and the
/// content type for it; `None` means the path held ".." and is
/// rejected, the traversal guard.
pub fn access_file(dir_path: &Vec<u8>, req_path: &Vec<u8>) -> (r: Option<(Vec<u8>, Vec<u8>)>)
    ensures
        ({
            let rp = rewritten_path(req_path@);
            match r {
                Some(p) => !has_dotdot(rp) && p.0@ == dir_path@ + rp && p.1@ == content_type_of(
                    dir_path@ + rp,
                ),
                None => has_dotdot(rp),
            }
        }),
{
    let rp: Vec<u8> = if bytes_eq(req_path.as_slice(), slash_v().as_slice()) {
        index_html_v()
    } else {
        let mut c: Vec<u8> = Vec::new();
        c.extend_from_slice(req_path.as_slice());
        proof {
            assert(c@ =~= req_path@);
        }
        c
    };
    if contains_dotdot(rp.as_slice()) {
        return None;
    }
    let mut full: Vec<u8> = Vec::new();
    full.extend_from_slice(dir_path.as_slice());
    full.extend_from_slice(rp.as_slice());
    proof {
        assert(full@ =~= dir_path@ + rp@);
    }
    let mime: Vec<u8> = match extension_bytes(full.as_slice()) {
        None => octet_stream_v(),
        Some(e) => match mime_lookup(&e) {
            Some(m) => m,
            None => octet_stream_v(),
        },
    };
    Some((full, mime))
}

} // verus!
