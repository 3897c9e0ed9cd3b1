//! Byte-level helpers shared by the parser and the resolver: ASCII
//! case folding, whitespace trimming, whitespace tokenization, and
//! substring search, each with an exact specification.

use vstd::prelude::*;

verus! {

/// ASCII whitespace: space, tab, line feed, vertical tab, form feed,
/// carriage return.
pub open spec fn is_space(b: u8) -> bool {
    b == 32 || (9 <= b && b <= 13)
}

/// ASCII lower-casing of one byte; other bytes pass through.
pub open spec fn lower(b: u8) -> u8 {
    if 65 <= b && b <= 90 {
        (b + 32) as u8
    } else {
        b
    }
}

/// A byte string with every ASCII letter lower-cased.
pub open spec fn lower_seq(s: Seq<u8>) -> Seq<u8> {
    s.map_values(|b: u8| lower(b))
}

/// `s` with leading whitespace removed.
pub open spec fn trim_front(s: Seq<u8>) -> Seq<u8>
    decreases s.len(),
{
    if s.len() > 0 && is_space(s[0]) {
        trim_front(s.skip(1))
    } else {
        s
    }
}

/// `s` with trailing whitespace removed.
pub open spec fn trim_back(s: Seq<u8>) -> Seq<u8>
    decreases s.len(),
{
    if s.len() > 0 && is_space(s[s.len() - 1]) {
        trim_back(s.take(s.len() - 1))
    } else {
        s
    }
}

/// `s` with whitespace removed from both ends.
pub open spec fn trim(s: Seq<u8>) -> Seq<u8> {
    trim_back(trim_front(s))
}

/// Length of the maximal non-whitespace prefix of `s`.
pub open spec fn run_len(s: Seq<u8>) -> nat
    decreases s.len(),
{
    if s.len() > 0 && !is_space(s[0]) {
        1 + run_len(s.skip(1))
    } else {
        0
    }
}

pub proof fn lemma_run_len_le(s: Seq<u8>)
    ensures
        run_len(s) <= s.len(),
        s.len() > 0 && !is_space(s[0]) ==> run_len(s) >= 1,
    decreases s.len(),
{
    if s.len() > 0 && !is_space(s[0]) {
        lemma_run_len_le(s.skip(1));
    }
}

/// The maximal non-whitespace runs of `s`, in order: what splitting
/// on whitespace yields.
pub open spec fn tokens(s: Seq<u8>) -> Seq<Seq<u8>>
    decreases s.len(),
    via tokens_decreases
{
    if s.len() == 0 {
        Seq::empty()
    } else if is_space(s[0]) {
        tokens(s.skip(1))
    } else {
        seq![s.take(run_len(s) as int)] + tokens(s.skip(run_len(s) as int))
    }
}

#[via_fn]
proof fn tokens_decreases(s: Seq<u8>) {
    lemma_run_len_le(s);
}

/// `s` holds ".." somewhere.
pub open spec fn has_dotdot(s: Seq<u8>) -> bool {
    exists|i: int| 0 <= i && i + 1 < s.len() && #[trigger] s[i] == 46 && s[i + 1] == 46
}

/// Whether `b` is ASCII whitespace.
pub fn space(b: u8) -> (r: bool)
    ensures
        r == is_space(b),
{
    b == 32 || (9 <= b && b <= 13)
}

/// ASCII lower-casing of one byte.
pub fn lower_byte(b: u8) -> (r: u8)
    ensures
        r == lower(b),
{
    if 65 <= b && b <= 90 {
        b + 32
    } else {
        b
    }
}

/// Exact equality of two byte strings.
pub fn bytes_eq(a: &[u8], b: &[u8]) -> (r: bool)
    ensures
        r == (a@ == b@),
{
    if a.len() != b.len() {
        proof {
            assert(a@.len() != b@.len());
        }
        return false;
    }
    let mut i: usize = 0;
    while i < a.len()
        invariant
            i <= a.len(),
            a.len() == b.len(),
            forall|k: int| 0 <= k < i ==> a@[k] == b@[k],
        decreases a.len() - i,
    {
        if a[i] != b[i] {
            return false;
        }
        i = i + 1;
    }
    proof {
        assert(a@ =~= b@);
    }
    true
}

/// A copy of `v` lower-cased byte by byte.
pub fn to_lower(v: &[u8]) -> (r: Vec<u8>)
    ensures
        r@ == lower_seq(v@),
{
    let mut r: Vec<u8> = Vec::new();
    let mut i: usize = 0;
    while i < v.len()
        invariant
            i <= v.len(),
            r@ =~= lower_seq(v@.take(i as int)),
        decreases v.len() - i,
    {
        r.push(lower_byte(v[i]));
        proof {
            assert(r@ =~= lower_seq(v@.take(i + 1)));
        }
        i = i + 1;
    }
    proof {
        assert(v@.take(v@.len() as int) =~= v@);
    }
    r
}

/// A copy of `v` with whitespace removed from both ends.
pub fn trim_bytes(v: &[u8]) -> (r: Vec<u8>)
    ensures
        r@ == trim(v@),
{
    proof {
        assert(v@.skip(0) =~= v@);
    }
    let mut lo: usize = 0;
    while lo < v.len() && space(v[lo])
        invariant
            lo <= v.len(),
            trim_front(v@) == trim_front(v@.skip(lo as int)),
        decreases v.len() - lo,
    {
        proof {
            let s = v@.skip(lo as int);
            assert(s[0] == v@[lo as int]);
            assert(s.skip(1) =~= v@.skip(lo + 1));
        }
        lo = lo + 1;
    }
    proof {
        let s = v@.skip(lo as int);
        if s.len() > 0 {
            assert(s[0] == v@[lo as int]);
        }
        assert(trim_front(v@) == s);
    }
    let mut hi: usize = v.len();
    while hi > lo && space(v[hi - 1])
        invariant
            lo <= hi <= v.len(),
            trim_front(v@) == v@.skip(lo as int),
            trim_back(trim_front(v@)) == trim_back(v@.subrange(lo as int, hi as int)),
        decreases hi,
    {
        proof {
            let s = v@.subrange(lo as int, hi as int);
            assert(s[s.len() - 1] == v@[hi - 1]);
            assert(s.take(s.len() - 1) =~= v@.subrange(lo as int, hi - 1));
        }
        hi = hi - 1;
    }
    proof {
        let s = v@.subrange(lo as int, hi as int);
        if s.len() > 0 {
            assert(s[s.len() - 1] == v@[hi - 1]);
        }
        assert(trim(v@) == s);
    }
    let mut r: Vec<u8> = Vec::new();
    let mut i: usize = lo;
    while i < hi
        invariant
            lo <= i <= hi <= v.len(),
            r@ =~= v@.subrange(lo as int, i as int),
        decreases hi - i,
    {
        r.push(v[i]);
        proof {
            assert(r@ =~= v@.subrange(lo as int, i + 1));
        }
        i = i + 1;
    }
    r
}

/// Index of the first occurrence of `b` in `v`, if any.
pub fn find_first(v: &[u8], b: u8) -> (r: Option<usize>)
    ensures
        match r {
            Some(i) => i < v@.len() && v@[i as int] == b && forall|k: int|
                0 <= k < i ==> v@[k] != b,
            None => forall|k: int| 0 <= k < v@.len() ==> v@[k] != b,
        },
{
    let mut i: usize = 0;
    while i < v.len()
        invariant
            i <= v.len(),
            forall|k: int| 0 <= k < i ==> v@[k] != b,
        decreases v.len() - i,
    {
        if v[i] == b {
            return Some(i);
        }
        i = i + 1;
    }
    None
}

/// Whether `v` holds ".." anywhere.
pub fn contains_dotdot(v: &[u8]) -> (r: bool)
    ensures
        r == has_dotdot(v@),
{
    if v.len() < 2 {
        return false;
    }
    let mut i: usize = 0;
    while i + 1 < v.len()
        invariant
            i + 1 <= v.len(),
            forall|k: int| 0 <= k && k + 1 < i + 1 ==> !(#[trigger] v@[k] == 46 && v@[k + 1] == 46),
        decreases v.len() - i,
    {
        if v[i] == 46 && v[i + 1] == 46 {
            proof {
                assert(has_dotdot(v@));
            }
            return true;
        }
        i = i + 1;
    }
    false
}

/// The whitespace-separated tokens of `v`, in order.
pub fn split_ws(v: &[u8]) -> (r: Vec<Vec<u8>>)
    ensures
        r.deep_view() == tokens(v@),
{
    let mut r: Vec<Vec<u8>> = Vec::new();
    proof {
        assert(v@.skip(0) =~= v@);
        assert(r.deep_view() =~= Seq::<Seq<u8>>::empty());
        assert(r.deep_view() + tokens(v@) =~= tokens(v@));
    }
    let mut i: usize = 0;
    while i < v.len()
        invariant
            i <= v.len(),
            tokens(v@) == r.deep_view() + tokens(v@.skip(i as int)),
        decreases v.len() - i,
    {
        if space(v[i]) {
            proof {
                let s = v@.skip(i as int);
                assert(s[0] == v@[i as int]);
                assert(s.skip(1) =~= v@.skip(i + 1));
            }
            i = i + 1;
        } else {
            let start: usize = i;
            let mut j: usize = i;
            while j < v.len() && !space(v[j])
                invariant
                    start <= j <= v.len(),
                    forall|k: int| start <= k < j ==> !is_space(v@[k]),
                decreases v.len() - j,
            {
                j = j + 1;
            }
            let mut tok: Vec<u8> = Vec::new();
            let mut k: usize = start;
            while k < j
                invariant
                    start <= k <= j <= v.len(),
                    tok@ =~= v@.subrange(start as int, k as int),
                decreases j - k,
            {
                tok.push(v[k]);
                proof {
                    assert(tok@ =~= v@.subrange(start as int, k + 1));
                }
                k = k + 1;
            }
            proof {
                let s = v@.skip(start as int);
                lemma_run_len_exact(s, j - start);
                assert(s.take(j - start) =~= v@.subrange(start as int, j as int));
                assert(s.skip(j - start) =~= v@.skip(j as int));
                assert(tokens(s) == seq![tok@] + tokens(v@.skip(j as int)));
                let old_dv = r.deep_view();
                assert(tokens(v@) == old_dv + (seq![tok@] + tokens(v@.skip(j as int))));
                assert(old_dv + (seq![tok@] + tokens(v@.skip(j as int))) =~= old_dv.push(
                    tok@,
                ) + tokens(v@.skip(j as int)));
            }
            let ghost old_r = r.deep_view();
            let ghost tok_v = tok@;
            r.push(tok);
            proof {
                assert(r@[old_r.len() as int].deep_view() =~= tok_v);
                assert(r.deep_view() =~= old_r.push(tok_v));
            }
            i = j;
        }
    }
    proof {
        assert(v@.skip(v@.len() as int) =~= Seq::<u8>::empty());
        assert(r.deep_view() + tokens(v@.skip(i as int)) =~= r.deep_view());
    }
    r
}

proof fn lemma_run_len_exact(s: Seq<u8>, n: int)
    requires
        0 <= n <= s.len(),
        forall|k: int| 0 <= k < n ==> !is_space(s[k]),
        n == s.len() || is_space(s[n]),
    ensures
        run_len(s) == n,
    decreases n,
{
    if n == 0 {
        if s.len() > 0 {
            assert(is_space(s[0]));
        }
    } else {
        assert(!is_space(s[0]));
        let t = s.skip(1);
        assert(forall|k: int| 0 <= k < n - 1 ==> t[k] == s[k + 1] && !is_space(t[k]));
        if n < s.len() {
            assert(t[n - 1 + 1 - 1] == s[n]);
        }
        lemma_run_len_exact(t, n - 1);
    }
}

} // verus!

