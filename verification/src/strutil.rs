//! Byte-level string matching used by the pickers: ASCII case folding,
//! trimming, substring and prefix tests, lexicographic comparison, and
//! digit formatting with thousands separators.
use vstd::prelude::*;

verus! {

use vstd::string::StringSliceAdditionalSpecFns;

/// ASCII case folding of one byte: letters `A`-`Z` become `a`-`z`.
pub open spec fn fold_byte(b: u8) -> u8 {
    if 65 <= b <= 90 {
        (b + 32) as u8
    } else {
        b
    }
}

/// ASCII case folding of a byte sequence.
pub open spec fn fold(s: Seq<u8>) -> Seq<u8> {
    s.map_values(|b: u8| fold_byte(b))
}

/// ASCII whitespace, as trimming removes it.
pub open spec fn is_space(b: u8) -> bool {
    b == 32 || b == 9 || b == 10 || b == 13 || b == 11 || b == 12
}

/// First index that is not leading whitespace.
pub open spec fn trim_lo(s: Seq<u8>, i: int) -> int
    decreases s.len() - i,
{
    if i < 0 || i >= s.len() {
        s.len() as int
    } else if is_space(s[i]) {
        trim_lo(s, i + 1)
    } else {
        i
    }
}

/// One past the last index that is not trailing whitespace.
pub open spec fn trim_hi(s: Seq<u8>, i: int) -> int
    decreases i,
{
    if i <= 0 || i > s.len() {
        0
    } else if is_space(s[i - 1]) {
        trim_hi(s, i - 1)
    } else {
        i
    }
}

/// The trimmed window of a byte sequence.
pub open spec fn trimmed(s: Seq<u8>) -> Seq<u8> {
    let lo = trim_lo(s, 0);
    let hi = trim_hi(s, s.len() as int);
    if lo <= hi {
        s.subrange(lo, hi)
    } else {
        Seq::empty()
    }
}

/// The needle matches the haystack at offset `i`, ignoring ASCII case.
pub open spec fn match_at(h: Seq<u8>, n: Seq<u8>, i: int) -> bool {
    &&& 0 <= i
    &&& i + n.len() <= h.len()
    &&& forall|j: int| 0 <= j < n.len() ==> fold_byte(#[trigger] h[i + j]) == fold_byte(n[j])
}

/// The haystack contains the needle, ignoring ASCII case.
pub open spec fn spec_contains_fold(h: Seq<u8>, n: Seq<u8>) -> bool {
    exists|i: int| match_at(h, n, i)
}

/// The haystack starts with the needle, ignoring ASCII case.
pub open spec fn spec_starts_with_fold(h: Seq<u8>, n: Seq<u8>) -> bool {
    match_at(h, n, 0)
}

/// Bounds of the trimmed window of a string's bytes.
pub fn trim_range(s: &str) -> (r: (usize, usize))
    ensures
        r.0 as int == trim_lo(s.spec_bytes(), 0),
        r.1 as int == trim_hi(s.spec_bytes(), s.spec_bytes().len() as int),
        r.0 <= s.spec_bytes().len(),
        r.1 <= s.spec_bytes().len(),
{
    let bs = s.as_bytes();
    let n = bs.len();
    let mut lo: usize = 0;
    while lo < n && (bs[lo] == 32 || bs[lo] == 9 || bs[lo] == 10 || bs[lo] == 13 || bs[lo] == 11
        || bs[lo] == 12)
        invariant
            lo <= n == bs@.len(),
            trim_lo(bs@, 0) == trim_lo(bs@, lo as int),
        decreases n - lo,
    {
        lo = lo + 1;
    }
    let mut hi: usize = n;
    while hi > 0 && (bs[hi - 1] == 32 || bs[hi - 1] == 9 || bs[hi - 1] == 10 || bs[hi - 1] == 13
        || bs[hi - 1] == 11 || bs[hi - 1] == 12)
        invariant
            hi <= n == bs@.len(),
            trim_hi(bs@, n as int) == trim_hi(bs@, hi as int),
        decreases hi,
    {
        hi = hi - 1;
    }
    proof {
        lemma_trim_bounds(bs@);
        if lo < n {
            assert(trim_lo(bs@, lo as int) == lo);
        }
        if hi > 0 {
            assert(trim_hi(bs@, hi as int) == hi);
        }
    }
    if lo <= hi {
        (lo, hi)
    } else {
        (lo, hi)
    }
}

/// Trim bounds stay within the sequence, and an untrimmed byte at either
/// end pins them.
pub proof fn lemma_trim_bounds(s: Seq<u8>)
    ensures
        0 <= trim_lo(s, 0) <= s.len(),
        0 <= trim_hi(s, s.len() as int) <= s.len(),
{
    lemma_trim_lo_bounds(s, 0);
    lemma_trim_hi_bounds(s, s.len() as int);
}

proof fn lemma_trim_lo_bounds(s: Seq<u8>, i: int)
    requires
        0 <= i <= s.len(),
    ensures
        i <= trim_lo(s, i) <= s.len(),
    decreases s.len() - i,
{
    if i < s.len() && is_space(s[i]) {
        lemma_trim_lo_bounds(s, i + 1);
    }
}

proof fn lemma_trim_hi_bounds(s: Seq<u8>, i: int)
    requires
        0 <= i <= s.len(),
    ensures
        0 <= trim_hi(s, i) <= i,
    decreases i,
{
    if i > 0 && is_space(s[i - 1]) {
        lemma_trim_hi_bounds(s, i - 1);
    }
}

/// Every byte at or past the trailing-trim bound is whitespace.
pub proof fn lemma_trim_hi_spaces(s: Seq<u8>, i: int)
    requires
        0 <= i <= s.len(),
    ensures
        forall|k: int| trim_hi(s, i) <= k < i ==> is_space(#[trigger] s[k]),
    decreases i,
{
    if i > 0 && is_space(s[i - 1]) {
        lemma_trim_hi_spaces(s, i - 1);
    }
}

/// Every byte before the leading-trim bound is whitespace.
pub proof fn lemma_trim_lo_spaces(s: Seq<u8>, i: int)
    requires
        0 <= i <= s.len(),
    ensures
        forall|k: int| i <= k < trim_lo(s, i) ==> is_space(#[trigger] s[k]),
    decreases s.len() - i,
{
    if i < s.len() && is_space(s[i]) {
        lemma_trim_lo_spaces(s, i + 1);
    }
}

/// The UTF-8 bytes of an owned string.
pub open spec fn string_bytes(s: String) -> Seq<u8> {
    vstd::utf8::encode_utf8(s@)
}

/// The string with leading and trailing ASCII whitespace removed.
pub fn trim_owned(s: &str) -> (r: String)
    ensures
        vstd::utf8::encode_utf8(r@) == trimmed(s.spec_bytes()),
{
    broadcast use vstd::utf8::group_utf8_lib;

    let ghost b = s.spec_bytes();
    let (lo, hi) = trim_range(s);
    if lo >= hi {
        let r = String::new();
        proof {
            assert(vstd::utf8::encode_utf8(r@) =~= Seq::<u8>::empty());
            if trim_lo(b, 0) <= trim_hi(b, b.len() as int) {
                assert(trimmed(b) =~= Seq::<u8>::empty());
            }
        }
        return r;
    }
    proof {
        assert(vstd::utf8::is_char_boundary(b, lo as int)) by {
            if lo > 0 {
                lemma_trim_lo_spaces(b, 0);
                assert(is_space(b[lo - 1]));
                assert(vstd::utf8::is_char_boundary(b, lo - 1)) by {
                    vstd::utf8::is_char_boundary_iff_not_is_continuation_byte(b, lo - 1);
                }
                crate::editor::lemma_char_width_facts(b, lo - 1);
                assert(vstd::utf8::length_of_first_scalar(b.subrange(lo - 1, b.len() as int))
                    == 1);
            }
        }
        assert(vstd::utf8::is_char_boundary(b, hi as int)) by {
            if hi < b.len() {
                lemma_trim_hi_spaces(b, b.len() as int);
                assert(is_space(b[hi as int]));
                vstd::utf8::is_char_boundary_iff_not_is_continuation_byte(b, hi as int);
            }
        }
    }
    let (_, rest) = s.split_at(lo);
    let ghost rb = b.subrange(lo as int, b.len() as int);
    proof {
        assert(rest.spec_bytes() == rb);
        assert(vstd::utf8::is_char_boundary(rb, hi - lo)) by {
            if (hi as int) < b.len() {
                assert(rb[hi - lo] == b[hi as int]);
                vstd::utf8::is_char_boundary_iff_not_is_continuation_byte(b, hi as int);
                vstd::utf8::is_char_boundary_iff_not_is_continuation_byte(rb, hi - lo);
            }
        }
    }
    let (mid, _) = rest.split_at(hi - lo);
    let r = mid.to_owned();
    proof {
        assert(mid.spec_bytes() =~= rb.subrange(0, hi - lo));
        assert(rb.subrange(0, hi - lo) =~= b.subrange(lo as int, hi as int));
        assert(trimmed(b) == b.subrange(lo as int, hi as int));
    }
    r
}

/// Whether the trimmed query is empty.
pub fn trimmed_is_empty(s: &str) -> (r: bool)
    ensures
        r == (trimmed(s.spec_bytes()).len() == 0),
{
    let (lo, hi) = trim_range(s);
    proof {
        lemma_trim_bounds(s.spec_bytes());
    }
    lo >= hi
}

/// Case-insensitive prefix test on the raw bytes.
pub fn starts_with_fold(h: &str, n: &str) -> (r: bool)
    ensures
        r == spec_starts_with_fold(h.spec_bytes(), n.spec_bytes()),
{
    let hb = h.as_bytes();
    let nb = n.as_bytes();
    if nb.len() > hb.len() {
        return false;
    }
    match_at_exec(hb, nb, 0)
}

/// Case-insensitive window match at one offset.
fn match_at_exec(hb: &[u8], nb: &[u8], i: usize) -> (r: bool)
    requires
        i + nb@.len() <= hb@.len(),
    ensures
        r == match_at(hb@, nb@, i as int),
{
    let hn = hb.len();
    let m = nb.len();
    let mut j: usize = 0;
    while j < m
        invariant
            j <= m == nb@.len(),
            i + m <= hn == hb@.len(),
            forall|q: int| 0 <= q < j ==> fold_byte(#[trigger] hb@[i + q]) == fold_byte(nb@[q]),
        decreases m - j,
    {
        let a = hb[i + j];
        let b = nb[j];
        let fa = if 65 <= a && a <= 90 {
            a + 32
        } else {
            a
        };
        let fb = if 65 <= b && b <= 90 {
            b + 32
        } else {
            b
        };
        if fa != fb {
            return false;
        }
        j = j + 1;
    }
    true
}

/// Case-insensitive substring test on the raw bytes.
pub fn contains_fold(h: &str, n: &str) -> (r: bool)
    ensures
        r == spec_contains_fold(h.spec_bytes(), n.spec_bytes()),
{
    let hb = h.as_bytes();
    let nb = n.as_bytes();
    let hn = hb.len();
    let nn = nb.len();
    if nn > hn {
        proof {
            assert(forall|i: int| !match_at(hb@, nb@, i));
        }
        return false;
    }
    let mut i: usize = 0;
    while i <= hn - nn
        invariant
            nn <= hn,
            hn == hb@.len(),
            nn == nb@.len(),
            hb@ == h.spec_bytes(),
            nb@ == n.spec_bytes(),
            i <= hn - nn + 1,
            forall|q: int| 0 <= q < i ==> !match_at(hb@, nb@, q),
        decreases hn - nn - i + 1,
    {
        if match_at_exec(hb, nb, i) {
            proof {
                assert(match_at(h.spec_bytes(), n.spec_bytes(), i as int));
                assert(spec_contains_fold(h.spec_bytes(), n.spec_bytes()));
            }
            return true;
        }
        i = i + 1;
    }
    proof {
        assert(forall|q: int| match_at(hb@, nb@, q) ==> 0 <= q <= hn - nn);
    }
    false
}

/// Case-insensitive equality of two strings' bytes.
pub fn eq_fold(a: &str, b: &str) -> (r: bool)
    ensures
        r == (fold(a.spec_bytes()) == fold(b.spec_bytes())),
{
    let ab = a.as_bytes();
    let bb = b.as_bytes();
    if ab.len() != bb.len() {
        proof {
            assert(fold(ab@).len() != fold(bb@).len());
        }
        return false;
    }
    let r = match_at_exec(ab, bb, 0);
    proof {
        if r {
            assert forall|j: int| 0 <= j < fold(ab@).len() implies fold(ab@)[j] == fold(
                bb@,
            )[j] by {
                assert(fold_byte(ab@[0 + j]) == fold_byte(bb@[j]));
            }
            assert(fold(ab@) =~= fold(bb@));
        } else {
            if fold(ab@) == fold(bb@) {
                assert forall|j: int|
                    0 <= j < bb@.len() implies fold_byte(#[trigger] ab@[0 + j]) == fold_byte(
                    bb@[j],
                ) by {
                    assert(fold(ab@)[j] == fold_byte(ab@[j]));
                    assert(fold(bb@)[j] == fold_byte(bb@[j]));
                }
                assert(match_at(ab@, bb@, 0));
            }
        }
    }
    r
}

/// Case-insensitive window match: the needle is a byte window of `n`.
fn match_at_win(hb: &[u8], nb: &[u8], i: usize, lo: usize, hi: usize) -> (r: bool)
    requires
        lo <= hi <= nb@.len(),
        i + (hi - lo) <= hb@.len(),
    ensures
        r == match_at(hb@, nb@.subrange(lo as int, hi as int), i as int),
{
    let hn = hb.len();
    let m = hi - lo;
    let ghost w = nb@.subrange(lo as int, hi as int);
    let mut j: usize = 0;
    while j < m
        invariant
            j <= m == hi - lo,
            lo <= hi <= nb@.len(),
            i + m <= hn == hb@.len(),
            w == nb@.subrange(lo as int, hi as int),
            forall|q: int| 0 <= q < j ==> fold_byte(#[trigger] hb@[i + q]) == fold_byte(w[q]),
        decreases m - j,
    {
        let a = hb[i + j];
        let b = nb[lo + j];
        let fa = if 65 <= a && a <= 90 {
            a + 32
        } else {
            a
        };
        let fb = if 65 <= b && b <= 90 {
            b + 32
        } else {
            b
        };
        if fa != fb {
            proof {
                assert(w[j as int] == nb@[lo + j]);
            }
            return false;
        }
        proof {
            assert(w[j as int] == nb@[lo + j]);
        }
        j = j + 1;
    }
    true
}

/// Case-insensitive prefix test against a byte window of the needle.
pub fn starts_with_fold_win(h: &str, n: &str, lo: usize, hi: usize) -> (r: bool)
    requires
        lo <= hi <= n.spec_bytes().len(),
    ensures
        r == spec_starts_with_fold(h.spec_bytes(), n.spec_bytes().subrange(lo as int, hi as int)),
{
    let hb = h.as_bytes();
    let nb = n.as_bytes();
    if hi - lo > hb.len() {
        return false;
    }
    match_at_win(hb, nb, 0, lo, hi)
}

/// Case-insensitive substring test against a byte window of the needle.
pub fn contains_fold_win(h: &str, n: &str, lo: usize, hi: usize) -> (r: bool)
    requires
        lo <= hi <= n.spec_bytes().len(),
    ensures
        r == spec_contains_fold(h.spec_bytes(), n.spec_bytes().subrange(lo as int, hi as int)),
{
    let hb = h.as_bytes();
    let nb = n.as_bytes();
    let hn = hb.len();
    let nn = hi - lo;
    let ghost w = nb@.subrange(lo as int, hi as int);
    if nn > hn {
        proof {
            assert(forall|i: int| !match_at(hb@, w, i));
        }
        return false;
    }
    let mut i: usize = 0;
    while i <= hn - nn
        invariant
            nn == hi - lo,
            lo <= hi <= nb@.len(),
            nn <= hn,
            hn == hb@.len(),
            hb@ == h.spec_bytes(),
            nb@ == n.spec_bytes(),
            w == nb@.subrange(lo as int, hi as int),
            i <= hn - nn + 1,
            forall|q: int| 0 <= q < i ==> !match_at(hb@, w, q),
        decreases hn - nn - i + 1,
    {
        if match_at_win(hb, nb, i, lo, hi) {
            proof {
                assert(match_at(h.spec_bytes(), n.spec_bytes().subrange(lo as int, hi as int), i as int));
            }
            return true;
        }
        i = i + 1;
    }
    proof {
        assert(forall|q: int| match_at(hb@, w, q) ==> 0 <= q <= hn - nn);
    }
    false
}

/// Case-insensitive equality against a byte window of the needle.
pub fn eq_fold_win(h: &str, n: &str, lo: usize, hi: usize) -> (r: bool)
    requires
        lo <= hi <= n.spec_bytes().len(),
    ensures
        r == (fold(h.spec_bytes()) == fold(n.spec_bytes().subrange(lo as int, hi as int))),
{
    let hb = h.as_bytes();
    let ghost w = n.spec_bytes().subrange(lo as int, hi as int);
    if hb.len() != hi - lo {
        proof {
            assert(fold(hb@).len() != fold(w).len());
        }
        return false;
    }
    let r = match_at_win(hb, n.as_bytes(), 0, lo, hi);
    proof {
        if r {
            assert forall|j: int| 0 <= j < fold(hb@).len() implies fold(hb@)[j] == fold(w)[j] by {
                assert(fold_byte(hb@[0 + j]) == fold_byte(w[j]));
            }
            assert(fold(hb@) =~= fold(w));
        } else {
            if fold(hb@) == fold(w) {
                assert forall|j: int|
                    0 <= j < w.len() implies fold_byte(#[trigger] hb@[0 + j]) == fold_byte(
                    w[j],
                ) by {
                    assert(fold(hb@)[j] == fold_byte(hb@[j]));
                    assert(fold(w)[j] == fold_byte(w[j]));
                }
                assert(match_at(hb@, w, 0));
            }
        }
    }
    r
}

/// Remove the last character of a string, if any.
pub fn pop_char(s: &mut String)
    ensures
        old(s)@.len() == 0 ==> final(s)@ == old(s)@,
        old(s)@.len() > 0 ==> final(s)@ == old(s)@.drop_last(),
{
    broadcast use vstd::utf8::group_utf8_lib;

    let ghost cs = s@;
    let ghost b = string_bytes(*s);
    let n = s.as_str().as_bytes().len();
    if n == 0 {
        proof {
            if cs.len() > 0 {
                vstd::utf8::encode_utf8_first_scalar(cs);
                assert(vstd::utf8::encode_utf8(cs) =~= vstd::utf8::encode_scalar(cs[0] as u32)
                    + vstd::utf8::encode_utf8(cs.drop_first()));
            }
        }
        return ;
    }
    proof {
        if cs.len() == 0 {
            assert(b =~= Seq::<u8>::empty());
        }
        // the last character's encoding occupies the bytes after the last
        // boundary before the end
        let dl = cs.drop_last();
        let last = cs.last();
        assert(cs =~= dl + seq![last]);
        crate::editor::lemma_encode_utf8_concat(dl, seq![last]);
        crate::editor::lemma_encode_singleton(last);
        let el = vstd::utf8::encode_scalar(last as u32);
        let q = vstd::utf8::encode_utf8(dl).len() as int;
        assert(b =~= vstd::utf8::encode_utf8(dl) + el);
        vstd::utf8::encode_utf8_first_scalar(seq![last]);
        assert(vstd::utf8::valid_first_scalar(el)) by {
            assert(vstd::utf8::encode_utf8(seq![last]) == el);
        }
        assert(1 <= el.len() <= 4);
        assert(!vstd::utf8::is_continuation_byte(el[0])) by {
            assert(vstd::utf8::valid_leading_and_continuation_bytes_first_codepoint(el));
        }
        assert(b[q] == el[0]);
        assert(vstd::utf8::is_char_boundary(b, q)) by {
            vstd::utf8::is_char_boundary_iff_not_is_continuation_byte(b, q);
        }
        assert(forall|j: int|
            q < j < b.len() ==> vstd::utf8::is_continuation_byte(#[trigger] b[j])) by {
            assert(vstd::utf8::valid_leading_and_continuation_bytes_first_codepoint(el));
            assert(vstd::utf8::length_of_first_codepoint(el) == el.len());
            assert(forall|j: int| q < j < b.len() ==> b[j] == el[j - q]);
        }
        assert forall|j: int| q < j <= n - 1 implies !vstd::utf8::is_char_boundary(b, j) by {
            vstd::utf8::is_char_boundary_iff_not_is_continuation_byte(b, j);
        }
        crate::editor::lemma_clamped_value(b, n - 1, q);
    }
    let p = crate::editor::clamp_cursor(s.as_str(), n - 1);
    let (head, _) = s.as_str().split_at(p);
    let r = head.to_owned();
    proof {
        let dl = cs.drop_last();
        assert(head.spec_bytes() =~= b.subrange(0, p as int));
        assert(b.subrange(0, p as int) =~= vstd::utf8::encode_utf8(dl));
        assert(vstd::utf8::encode_utf8(r@) == vstd::utf8::encode_utf8(dl));
        assert(vstd::utf8::decode_utf8(vstd::utf8::encode_utf8(r@)) == r@);
        assert(vstd::utf8::decode_utf8(vstd::utf8::encode_utf8(dl)) == dl);
    }
    *s = r;
}

/// An owned copy of a string slice.
pub fn owned_str(s: &str) -> (r: String)
    ensures
        r@ == s@,
{
    s.to_owned()
}

/// Exact string equality, decided on the bytes.
pub fn str_eq(a: &str, b: &str) -> (r: bool)
    ensures
        r == (a@ == b@),
{
    let ab = a.as_bytes();
    let bb = b.as_bytes();
    let an = ab.len();
    if an != bb.len() {
        proof {
            broadcast use vstd::utf8::group_utf8_lib;

            if a@ == b@ {
                assert(ab@ == bb@);
            }
        }
        return false;
    }
    let mut i: usize = 0;
    while i < an
        invariant
            i <= an == ab@.len() == bb@.len(),
            ab@ == a.spec_bytes(),
            bb@ == b.spec_bytes(),
            forall|q: int| 0 <= q < i ==> ab@[q] == bb@[q],
        decreases an - i,
    {
        if ab[i] != bb[i] {
            proof {
                broadcast use vstd::utf8::group_utf8_lib;

                if a@ == b@ {
                    assert(ab@ == bb@);
                }
            }
            return false;
        }
        i = i + 1;
    }
    proof {
        broadcast use vstd::utf8::group_utf8_lib;

        assert(ab@ =~= bb@);
        assert(vstd::utf8::decode_utf8(vstd::utf8::encode_utf8(a@)) == a@);
        assert(vstd::utf8::decode_utf8(vstd::utf8::encode_utf8(b@)) == b@);
    }
    true
}

/// Strict lexicographic order on byte sequences.
pub open spec fn lex_lt(a: Seq<u8>, b: Seq<u8>) -> bool
    decreases a.len(),
{
    if b.len() == 0 {
        false
    } else if a.len() == 0 {
        true
    } else if a[0] != b[0] {
        a[0] < b[0]
    } else {
        lex_lt(a.drop_first(), b.drop_first())
    }
}

/// Lexicographic order is total: two sequences are ordered or equal.
pub proof fn lemma_lex_total(a: Seq<u8>, b: Seq<u8>)
    ensures
        lex_lt(a, b) || lex_lt(b, a) || a == b,
    decreases a.len(),
{
    if b.len() == 0 || a.len() == 0 {
        if a.len() == b.len() {
            assert(a =~= b);
        }
    } else if a[0] == b[0] {
        lemma_lex_total(a.drop_first(), b.drop_first());
        if a.drop_first() == b.drop_first() {
            assert(a.drop_first().len() == a.len() - 1);
            assert(b.drop_first().len() == b.len() - 1);
            assert(a.len() == b.len());
            assert forall|i: int| 0 <= i < a.len() implies a[i] == b[i] by {
                if i > 0 {
                    assert(a[i] == a.drop_first()[i - 1]);
                    assert(b[i] == b.drop_first()[i - 1]);
                }
            }
            assert(a =~= b);
        }
    }
}

/// Decide the lexicographic order of two strings' bytes.
pub fn lex_lt_exec(a: &str, b: &str) -> (r: bool)
    ensures
        r == lex_lt(a.spec_bytes(), b.spec_bytes()),
{
    let ab = a.as_bytes();
    let bb = b.as_bytes();
    let an = ab.len();
    let bn = bb.len();
    let mut i: usize = 0;
    proof {
        assert(ab@.skip(0) =~= ab@);
        assert(bb@.skip(0) =~= bb@);
    }
    while i < an && i < bn
        invariant
            i <= an == ab@.len(),
            i <= bn == bb@.len(),
            ab@ == a.spec_bytes(),
            bb@ == b.spec_bytes(),
            lex_lt(ab@, bb@) == lex_lt(ab@.skip(i as int), bb@.skip(i as int)),
            forall|q: int| 0 <= q < i ==> ab@[q] == bb@[q],
        decreases an - i,
    {
        if ab[i] < bb[i] {
            proof {
                lemma_lex_skip_head(ab@, bb@, i as int);
                assert(ab@[i as int] != bb@[i as int]);
                assert(lex_lt(ab@.skip(i as int), bb@.skip(i as int)));
                assert(lex_lt(ab@, bb@));
                assert(lex_lt(a.spec_bytes(), b.spec_bytes()));
            }
            return true;
        }
        if ab[i] > bb[i] {
            proof {
                lemma_lex_skip_head(ab@, bb@, i as int);
                assert(ab@[i as int] != bb@[i as int]);
                assert(!lex_lt(ab@.skip(i as int), bb@.skip(i as int)));
                assert(!lex_lt(ab@, bb@));
                assert(!lex_lt(a.spec_bytes(), b.spec_bytes()));
            }
            return false;
        }
        proof {
            lemma_lex_skip_head(ab@, bb@, i as int);
        }
        i = i + 1;
    }
    proof {
        lemma_lex_skip_end(ab@, bb@, i as int);
    }
    an < bn
}

/// One unfolding of `lex_lt` on the skipped tails.
proof fn lemma_lex_skip_head(a: Seq<u8>, b: Seq<u8>, i: int)
    requires
        0 <= i < a.len(),
        0 <= i < b.len(),
    ensures
        lex_lt(a.skip(i), b.skip(i)) == (if a[i] != b[i] {
            a[i] < b[i]
        } else {
            lex_lt(a.skip(i + 1), b.skip(i + 1))
        }),
{
    let sa = a.skip(i);
    let sb = b.skip(i);
    assert(sa[0] == a[i] && sb[0] == b[i]);
    assert(sa.drop_first() =~= a.skip(i + 1));
    assert(sb.drop_first() =~= b.skip(i + 1));
}

/// At the end of the common prefix, order is decided by length.
proof fn lemma_lex_skip_end(a: Seq<u8>, b: Seq<u8>, i: int)
    requires
        0 <= i <= a.len(),
        0 <= i <= b.len(),
        i == a.len() || i == b.len(),
    ensures
        lex_lt(a.skip(i), b.skip(i)) == (a.len() < b.len()),
{
    if i == a.len() && i == b.len() {
        assert(a.skip(i).len() == 0 && b.skip(i).len() == 0);
    } else if i == a.len() {
        assert(a.skip(i).len() == 0 && b.skip(i).len() > 0);
    } else {
        assert(b.skip(i).len() == 0 && a.skip(i).len() > 0);
    }
}

/// The digits of a number, most significant first.
pub open spec fn digits_of(v: int) -> Seq<char>
    decreases v,
{
    if v <= 0 {
        Seq::empty()
    } else {
        digits_of(v / 10).push((48 + v % 10) as char)
    }
}

/// Decimal rendering of a number: its digits, or "0".
pub open spec fn decimal_of(v: int) -> Seq<char> {
    if v == 0 {
        seq!['0']
    } else {
        digits_of(v)
    }
}

/// The decimal digits of a counter, most significant first.
pub fn decimal_digits(v: u64) -> (r: Vec<char>)
    ensures
        r@ == decimal_of(v as int),
{
    if v == 0 {
        let mut r: Vec<char> = Vec::new();
        r.push('0');
        proof {
            assert(r@ =~= seq!['0']);
        }
        return r;
    }
    let mut digs: Vec<char> = Vec::new();
    let mut x = v;
    proof {
        assert(digits_of(v as int) + Seq::<char>::empty() =~= digits_of(v as int));
    }
    while x > 0
        invariant
            digits_of(v as int) == digits_of(x as int) + digs@,
        decreases x,
    {
        let ghost pre = digs@;
        let d = ((x % 10) as u8 + 48) as char;
        digs.insert(0, d);
        proof {
            assert(digs@ =~= seq![d] + pre);
            assert(d == (48 + (x as int) % 10) as char);
            assert(digits_of(x as int) =~= digits_of((x as int) / 10) + seq![d]);
            assert(digits_of((x as int) / 10) + (seq![d] + pre) =~= (digits_of((x as int) / 10)
                + seq![d]) + pre);
            assert((x / 10) as int == (x as int) / 10);
        }
        x = x / 10;
    }
    proof {
        assert(digits_of(0int) =~= Seq::<char>::empty());
        assert(digs@ =~= digits_of(v as int));
    }
    digs
}

/// Decimal digits are ASCII characters.
pub proof fn lemma_decimal_ascii(v: int)
    ensures
        vstd::utf8::is_ascii_chars(decimal_of(v)),
{
    lemma_digits_ascii(v);
}

proof fn lemma_digits_ascii(v: int)
    ensures
        vstd::utf8::is_ascii_chars(digits_of(v)),
    decreases v,
{
    if v > 0 {
        lemma_digits_ascii(v / 10);
        let ds = digits_of(v);
        assert(ds.last() == (48 + v % 10) as char);
        assert forall|i: int| 0 <= i < ds.len() implies '\0' <= #[trigger] ds[i]
            <= '\u{7f}' by {
            if i < ds.len() - 1 {
                assert(ds[i] == digits_of(v / 10)[i]);
            }
        }
    }
}

/// A digit-group separator every three digits, counted from the right.
pub open spec fn grouped(ds: Seq<char>) -> Seq<char>
    decreases ds.len(),
{
    if ds.len() <= 3 {
        ds
    } else {
        grouped(ds.subrange(0, ds.len() - 3)) + seq![','] + ds.subrange(
            ds.len() - 3,
            ds.len() as int,
        )
    }
}


/// Group the leading `upto` digits with separators every three, from the
/// right.
fn group_upto(ds: &Vec<char>, upto: usize) -> (r: String)
    requires
        upto <= ds@.len(),
    ensures
        r@ == grouped(ds@.subrange(0, upto as int)),
    decreases upto,
{
    if upto <= 3 {
        let mut s = String::new();
        let mut k: usize = 0;
        while k < upto
            invariant
                k <= upto <= ds@.len(),
                s@ == ds@.subrange(0, k as int),
            decreases upto - k,
        {
            crate::editor::push_char(&mut s, ds[k]);
            proof {
                assert(s@ =~= ds@.subrange(0, k + 1));
            }
            k = k + 1;
        }
        proof {
            if upto == 0 {
                assert(s@ =~= ds@.subrange(0, 0));
            }
        }
        s
    } else {
        let mut s = group_upto(ds, upto - 3);
        crate::editor::push_char(&mut s, ',');
        let mut k: usize = upto - 3;
        while k < upto
            invariant
                upto - 3 <= k <= upto <= ds@.len(),
                upto >= 4,
                s@ == grouped(ds@.subrange(0, upto - 3)) + seq![','] + ds@.subrange(
                    upto - 3,
                    k as int,
                ),
            decreases upto - k,
        {
            crate::editor::push_char(&mut s, ds[k]);
            proof {
                assert(s@ =~= grouped(ds@.subrange(0, upto - 3)) + seq![','] + ds@.subrange(
                    upto - 3,
                    k + 1,
                ));
            }
            k = k + 1;
        }
        proof {
            let w = ds@.subrange(0, upto as int);
            assert(w.len() > 3);
            assert(w.subrange(0, w.len() - 3) =~= ds@.subrange(0, upto - 3));
            assert(w.subrange(w.len() - 3, w.len() as int) =~= ds@.subrange(
                upto - 3,
                upto as int,
            ));
        }
        s
    }
}

/// Render digits with separators every three, counted from the right.
pub fn group_digits(ds: &Vec<char>) -> (r: String)
    ensures
        r@ == grouped(ds@),
{
    let r = group_upto(ds, ds.len());
    proof {
        assert(ds@.subrange(0, ds@.len() as int) =~= ds@);
    }
    r
}

} // verus!
