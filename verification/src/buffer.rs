//! The editable buffer: text, byte cursor and pending attachments, with the
//! invariants the session engine relies on. The cursor always sits on a
//! code-point boundary and never strictly inside a paste region, and the
//! buffer holds exactly one image sentinel per pending attachment, in order.
use vstd::prelude::*;

verus! {

broadcast use vstd::utf8::group_utf8_lib;

use vstd::string::StringSliceAdditionalSpecFns;
use vstd::utf8::is_char_boundary;
use vstd::utf8::valid_utf8;
use vstd::utf8::encode_utf8;
use crate::editor::pat_at;
use crate::editor::last_pat_before;
use crate::editor::lemma_last_pat_before;
use crate::editor::ss_at;
use crate::editor::se_at;
use crate::editor::im_at;
use crate::editor::SS_BYTE;
use crate::editor::SE_BYTE;
use crate::editor::IM_BYTE;

/// Number of sentinels with final byte `x` that lie entirely inside the
/// first `upto` bytes.
pub open spec fn count_pat(b: Seq<u8>, x: u8, upto: int) -> int
    decreases upto,
{
    if upto < 3 {
        0
    } else {
        count_pat(b, x, upto - 1) + if pat_at(b, upto - 3, x) {
            1int
        } else {
            0int
        }
    }
}

/// Counting sentinels is monotone, never negative, and moves in unit steps.
pub proof fn lemma_count_mono(b: Seq<u8>, x: u8, i: int, j: int)
    requires
        i <= j,
    ensures
        0 <= count_pat(b, x, i) <= count_pat(b, x, j),
    decreases j,
{
    if j < 3 {
        lemma_count_nonneg(b, x, i);
    } else if i < j {
        lemma_count_mono(b, x, i, j - 1);
    } else {
        lemma_count_nonneg(b, x, i);
    }
}

proof fn lemma_count_nonneg(b: Seq<u8>, x: u8, i: int)
    ensures
        0 <= count_pat(b, x, i),
    decreases i,
{
    if i >= 3 {
        lemma_count_nonneg(b, x, i - 1);
    }
}

/// If no sentinel completes in `(i, j]`, the counts at `i` and `j` agree.
pub proof fn lemma_count_eq(b: Seq<u8>, x: u8, i: int, j: int)
    requires
        i <= j,
        forall|q: int| i - 2 <= q && q + 3 <= j ==> !pat_at(b, q, x),
    ensures
        count_pat(b, x, j) == count_pat(b, x, if i < 0 {
            0int
        } else {
            i
        }),
    decreases j,
{
    if j < 3 {
        lemma_count_zero_low(b, x, i);
        lemma_count_zero_low(b, x, j);
    } else if i < j {
        assert(!pat_at(b, j - 3, x));
        lemma_count_eq(b, x, i, j - 1);
    }
}

proof fn lemma_count_zero_low(b: Seq<u8>, x: u8, i: int)
    requires
        i < 3,
    ensures
        count_pat(b, x, i) == 0,
        count_pat(b, x, if i < 0 {
            0int
        } else {
            i
        }) == 0,
{
}

/// A sentinel at `s` contributes to the count once it completes at `s + 3`.
pub proof fn lemma_count_at_pat(b: Seq<u8>, x: u8, s: int)
    requires
        pat_at(b, s, x),
    ensures
        count_pat(b, x, s + 3) == count_pat(b, x, s + 2) + 1,
{
}

/// Sentinels never straddle the junction of two valid UTF-8 sequences: a
/// sentinel of the concatenation lies entirely in one part.
pub proof fn lemma_pat_concat(x: Seq<u8>, y: Seq<u8>, i: int, p: u8)
    requires
        valid_utf8(x),
        valid_utf8(y),
    ensures
        pat_at(x + y, i, p) <==> (pat_at(x, i, p) || (i >= x.len() && pat_at(
            y,
            i - x.len(),
            p,
        ))),
{
    let n = x.len() as int;
    if pat_at(x + y, i, p) {
        if i + 3 <= n {
            assert(pat_at(x, i, p));
        } else if i >= n {
            assert(pat_at(y, i - n, p));
        } else {
            // The window would straddle the junction: impossible, since 0xEF
            // opens a three-byte encoding that x must complete.
            assert(x[i] == 0xEFu8);
            vstd::utf8::is_char_boundary_iff_not_is_continuation_byte(x, i);
            assert(is_char_boundary(x, i));
            vstd::utf8::valid_utf8_split(x, i);
            let s = x.subrange(i, n);
            assert(valid_utf8(s));
            assert(s.len() > 0);
            assert(vstd::utf8::valid_first_scalar(s));
            assert(s[0] == 0xEFu8);
            assert(vstd::utf8::valid_leading_and_continuation_bytes_first_codepoint(s));
            assert(s.len() >= 3);
            assert(false);
        }
    }
}

/// Counting sentinels distributes over concatenation of valid parts.
pub proof fn lemma_count_concat(x: Seq<u8>, y: Seq<u8>, p: u8, k: int)
    requires
        valid_utf8(x),
        valid_utf8(y),
        k <= x.len() + y.len(),
    ensures
        k <= x.len() ==> count_pat(x + y, p, k) == count_pat(x, p, k),
        k >= x.len() ==> count_pat(x + y, p, k) == count_pat(x, p, x.len() as int) + count_pat(
            y,
            p,
            k - x.len(),
        ),
    decreases (if k < 0 {
        0int
    } else {
        k
    }),
{
    let n = x.len() as int;
    if k < 3 {
        lemma_count_zero_low(x + y, p, k);
        lemma_count_zero_low(x, p, k);
        if k >= n {
            lemma_count_zero_low(y, p, k - n);
            lemma_count_zero_low(x, p, n);
            if n >= 3 {
                lemma_count_mono(x, p, 3, n);
                assert(false);
            }
            lemma_count_zero_low(x, p, n);
        }
    } else {
        lemma_count_concat(x, y, p, k - 1);
        lemma_pat_concat(x, y, k - 3, p);
        if k <= n {
            assert(pat_at(x + y, k - 3, p) <==> pat_at(x, k - 3, p));
        } else if k == n + 1 || k == n + 2 {
            // the window at k - 3 would straddle the junction
            assert(!pat_at(x + y, k - 3, p));
            assert(!pat_at(x, k - 3, p));
            assert(count_pat(y, p, k - n) == 0) by {
                lemma_count_zero_low(y, p, k - n);
            }
            if k - 1 == n {
                assert(count_pat(x + y, p, k - 1) == count_pat(x, p, n));
            } else {
                assert(count_pat(y, p, k - 1 - n) == 0) by {
                    lemma_count_zero_low(y, p, k - 1 - n);
                }
            }
        } else {
            assert(pat_at(x + y, k - 3, p) <==> pat_at(y, k - 3 - n, p));
        }
    }
}

/// Number of paste regions open just before byte `i`: paste-start sentinels
/// completed so far minus paste-end sentinels completed so far.
pub open spec fn open_at(b: Seq<u8>, i: int) -> int {
    count_pat(b, SS_BYTE, i) - count_pat(b, SE_BYTE, i)
}

/// Region discipline of a buffer: at most one paste region is open at any
/// point, none is open at the end, no end sentinel is stray, and image
/// markers only stand outside paste regions.
pub open spec fn regions_wf(b: Seq<u8>) -> bool {
    &&& forall|i: int| 0 <= i <= b.len() ==> 0 <= #[trigger] open_at(b, i) <= 1
    &&& open_at(b, b.len() as int) == 0
    &&& forall|m: int| #[trigger] im_at(b, m) ==> open_at(b, m) == 0
}

/// A byte sequence without any sentinel at all.
pub open spec fn pattern_free(t: Seq<u8>) -> bool {
    forall|j: int|
        #![trigger pat_at(t, j, SS_BYTE)]
        #![trigger pat_at(t, j, SE_BYTE)]
        #![trigger pat_at(t, j, IM_BYTE)]
        !pat_at(t, j, SS_BYTE) && !pat_at(t, j, SE_BYTE) && !pat_at(t, j, IM_BYTE)
}

/// The count just past one possible sentinel start.
pub proof fn lemma_count_three(s: Seq<u8>, x: u8)
    ensures
        count_pat(s, x, 3) == if pat_at(s, 0, x) {
            1int
        } else {
            0int
        },
{
    lemma_count_zero_low(s, x, 2);
}

/// A sequence without sentinels of kind `x` counts none of them.
pub proof fn lemma_count_zero(t: Seq<u8>, x: u8, k: int)
    requires
        forall|q: int| !(#[trigger] pat_at(t, q, x)),
    ensures
        count_pat(t, x, k) == 0,
    decreases k,
{
    if k >= 3 {
        lemma_count_zero(t, x, k - 1);
    }
}

/// A pattern-free sequence counts no sentinels.
pub proof fn lemma_count_pattern_free(t: Seq<u8>, x: u8, k: int)
    requires
        pattern_free(t),
        x == SS_BYTE || x == SE_BYTE || x == IM_BYTE,
    ensures
        count_pat(t, x, k) == 0,
    decreases k,
{
    if k >= 3 {
        lemma_count_pattern_free(t, x, k - 1);
        assert(!pat_at(t, k - 3, SS_BYTE) && !pat_at(t, k - 3, SE_BYTE) && !pat_at(
            t,
            k - 3,
            IM_BYTE,
        ));
    }
}

/// The two bytes after a sentinel's leading byte are continuation bytes, so
/// no code-point boundary falls strictly inside a sentinel.
pub proof fn lemma_pat_interior(b: Seq<u8>, q: int, x: u8)
    requires
        valid_utf8(b),
        pat_at(b, q, x),
        x == SS_BYTE || x == SE_BYTE || x == IM_BYTE,
    ensures
        !is_char_boundary(b, q + 1),
        !is_char_boundary(b, q + 2),
{
    assert(vstd::utf8::is_continuation_byte(b[q + 1]));
    assert(vstd::utf8::is_continuation_byte(b[q + 2]));
    vstd::utf8::is_char_boundary_iff_not_is_continuation_byte(b, q + 1);
    vstd::utf8::is_char_boundary_iff_not_is_continuation_byte(b, q + 2);
}

/// Stepping the count across exactly one character: only a sentinel that
/// starts at that character changes it, and the character interior holds no
/// boundary.
pub proof fn lemma_count_step_char(b: Seq<u8>, p: int, x: u8)
    requires
        valid_utf8(b),
        is_char_boundary(b, p),
        0 <= p < b.len(),
        x == SS_BYTE || x == SE_BYTE || x == IM_BYTE,
    ensures
        ({
            let w = vstd::utf8::length_of_first_scalar(b.subrange(p, b.len() as int));
            count_pat(b, x, p + w) == count_pat(b, x, p) + if pat_at(b, p, x) {
                1int
            } else {
                0int
            }
        }),
{
    let n = b.len() as int;
    let s = b.subrange(p, n);
    assert(valid_utf8(s)) by {
        vstd::utf8::valid_utf8_split(b, p);
    }
    assert(vstd::utf8::valid_first_scalar(s));
    let w = vstd::utf8::length_of_first_scalar(s);
    assert(1 <= w <= 4);
    assert(p + w <= n) by {
        assert(vstd::utf8::valid_leading_and_continuation_bytes_first_codepoint(s));
    }
    // interior bytes of the character are continuation bytes
    assert(forall|t: int|
        p < t < p + w ==> vstd::utf8::is_continuation_byte(#[trigger] b[t])) by {
        assert(forall|t: int| p < t < p + w ==> b[t] == s[t - p]);
        assert(vstd::utf8::valid_leading_and_continuation_bytes_first_codepoint(s));
    }
    // no sentinel starts strictly inside this character, nor spans into it
    assert forall|q: int| p - 2 <= q <= p + w - 3 && q != p implies !pat_at(b, q, x) by {
        if pat_at(b, q, x) {
            if q < p {
                // p would fall inside the sentinel, but p is a boundary
                lemma_pat_interior(b, q, x);
                assert(p == q + 1 || p == q + 2);
            } else {
                // the sentinel's leading byte would be a continuation byte
                assert(b[q] == 0xEFu8);
                assert(vstd::utf8::is_continuation_byte(b[q]));
            }
        }
    }
    if pat_at(b, p, x) {
        assert(b[p] == 0xEFu8);
        assert(w == 3);
        lemma_count_at_pat(b, x, p);
        lemma_count_eq(b, x, p, p + 2);
    } else {
        lemma_count_eq(b, x, p, p + w);
    }
}

/// A nonzero count names a sentinel.
pub proof fn lemma_count_pos(b: Seq<u8>, x: u8, k: int)
    requires
        count_pat(b, x, k) >= 1,
    ensures
        exists|q: int| q + 3 <= k && #[trigger] pat_at(b, q, x),
    decreases k,
{
    if k >= 3 {
        if pat_at(b, k - 3, x) {
        } else {
            lemma_count_pos(b, x, k - 1);
        }
    }
}

/// Just before a paste-end sentinel one region is open, and a matching
/// paste-start sentinel stands before it with no region open at its start.
pub proof fn lemma_se_opener(b: Seq<u8>, p: int)
    requires
        valid_utf8(b),
        regions_wf(b),
        se_at(b, p),
    ensures
        open_at(b, p) == 1,
        open_at(b, p + 3) == 0,
        last_pat_before(b, SS_BYTE, p) >= 0,
        ({
            let s = last_pat_before(b, SS_BYTE, p);
            &&& ss_at(b, s)
            &&& s + 3 <= p
            &&& open_at(b, s) == 0
            &&& is_char_boundary(b, s)
            &&& is_char_boundary(b, p + 3)
            &&& forall|q: int| s - 2 <= q && q + 3 <= p + 3 ==> !pat_at(b, q, IM_BYTE)
        }),
{
    // crossing the end sentinel closes exactly one region
    assert(is_char_boundary(b, p)) by {
        vstd::utf8::is_char_boundary_iff_not_is_continuation_byte(b, p);
    }
    assert(count_pat(b, SE_BYTE, p + 3) == count_pat(b, SE_BYTE, p) + 1 && count_pat(
        b,
        SS_BYTE,
        p + 3,
    ) == count_pat(b, SS_BYTE, p)) by {
        lemma_count_step_char(b, p, SE_BYTE);
        lemma_count_step_char(b, p, SS_BYTE);
        let s = b.subrange(p, b.len() as int);
        assert(valid_utf8(s)) by {
            vstd::utf8::valid_utf8_split(b, p);
        }
        assert(s[0] == 0xEFu8);
        assert(vstd::utf8::length_of_first_scalar(s) == 3);
    }
    assert(0 <= open_at(b, p) <= 1);
    assert(0 <= open_at(b, p + 3) <= 1);
    assert(open_at(b, p) == 1 && open_at(b, p + 3) == 0);
    // a start sentinel must have completed before p
    assert(count_pat(b, SS_BYTE, p) >= 1) by {
        lemma_count_mono(b, SE_BYTE, 0, p);
    }
    lemma_count_pos(b, SS_BYTE, p);
    let s = last_pat_before(b, SS_BYTE, p);
    lemma_last_pat_before(b, SS_BYTE, p);
    assert(s >= 0) by {
        let q0 = choose|q: int| q + 3 <= p && #[trigger] pat_at(b, q, SS_BYTE);
        if s < 0 {
            assert(!pat_at(b, q0, SS_BYTE));
        }
    }
    assert(ss_at(b, s) && s + 3 <= p);
    assert(is_char_boundary(b, s)) by {
        vstd::utf8::is_char_boundary_iff_not_is_continuation_byte(b, s);
    }
    // no region is open where the matching start sentinel begins
    assert(count_pat(b, SS_BYTE, s + 3) == count_pat(b, SS_BYTE, s) + 1 && count_pat(
        b,
        SE_BYTE,
        s + 3,
    ) == count_pat(b, SE_BYTE, s)) by {
        lemma_count_step_char(b, s, SS_BYTE);
        lemma_count_step_char(b, s, SE_BYTE);
        let t = b.subrange(s, b.len() as int);
        assert(valid_utf8(t)) by {
            vstd::utf8::valid_utf8_split(b, s);
        }
        assert(t[0] == 0xEFu8);
        assert(vstd::utf8::length_of_first_scalar(t) == 3);
    }
    assert(0 <= open_at(b, s) <= 1);
    assert(0 <= open_at(b, s + 3) <= 1);
    assert(open_at(b, s) == 0);
    assert(is_char_boundary(b, p + 3)) by {
        if p + 3 < b.len() {
            lemma_count_step_char(b, p, SE_BYTE);
            let t = b.subrange(p, b.len() as int);
            assert(valid_utf8(t)) by {
                vstd::utf8::valid_utf8_split(b, p);
            }
            assert(t[0] == 0xEFu8);
            assert(vstd::utf8::length_of_first_scalar(t) == 3);
            assert(!vstd::utf8::is_continuation_byte(t[3])) by {
                assert(is_char_boundary(t, 3)) by {
                    reveal_with_fuel(is_char_boundary, 2);
                }
                vstd::utf8::is_char_boundary_iff_not_is_continuation_byte(t, 3);
            }
            assert(b[p + 3] == t[3]);
            vstd::utf8::is_char_boundary_iff_not_is_continuation_byte(b, p + 3);
        }
    }
    // the region between the start and end sentinel holds one open region
    // throughout, so no image marker can stand inside the removed segment
    assert(count_pat(b, SS_BYTE, p) == count_pat(b, SS_BYTE, s + 3)) by {
        lemma_count_eq(b, SS_BYTE, s + 3, p);
        assert(forall|q: int|
            s + 1 <= q && q + 3 <= p ==> !(#[trigger] pat_at(b, q, SS_BYTE)));
    }
    assert(count_pat(b, SE_BYTE, p) == count_pat(b, SE_BYTE, s + 3)) by {
        assert(open_at(b, s + 3) == 1);
        assert(open_at(b, p) == 1);
    }
    assert forall|q: int| s - 2 <= q && q + 3 <= p + 3 implies !pat_at(b, q, IM_BYTE) by {
        if pat_at(b, q, IM_BYTE) {
            if q < s {
                lemma_pat_interior(b, q, IM_BYTE);
                assert(s == q + 1 || s == q + 2);
                assert(is_char_boundary(b, s));
            } else if q == s || q == p {
                assert(b[q + 2] == IM_BYTE);
            } else if q < s + 3 {
                lemma_pat_interior(b, s, SS_BYTE);
                assert(is_char_boundary(b, q)) by {
                    vstd::utf8::is_char_boundary_iff_not_is_continuation_byte(b, q);
                }
            } else if q + 3 <= p {
                // an image marker inside the open region
                assert(im_at(b, q));
                assert(open_at(b, q) == 0);
                assert(count_pat(b, SS_BYTE, q) == count_pat(b, SS_BYTE, s + 3)) by {
                    lemma_count_mono(b, SS_BYTE, s + 3, q);
                    lemma_count_mono(b, SS_BYTE, q, p);
                }
                assert(count_pat(b, SE_BYTE, q) == count_pat(b, SE_BYTE, s + 3)) by {
                    lemma_count_mono(b, SE_BYTE, s + 3, q);
                    lemma_count_mono(b, SE_BYTE, q, p);
                }
                assert(open_at(b, q) == open_at(b, s + 3));
            } else {
                // q in (p - 2, p) would put the end sentinel's start inside it
                lemma_pat_interior(b, q, IM_BYTE);
                assert(is_char_boundary(b, p));
                assert(p == q + 1 || p == q + 2);
            }
        }
    }
}

/// Splitting a well-formed buffer at a boundary where no region is open

/// Where sentinels can sit in a three-part concatenation of valid parts.
pub proof fn lemma_pat3(x: Seq<u8>, m: Seq<u8>, y: Seq<u8>, q: int, p: u8)
    requires
        valid_utf8(x),
        valid_utf8(m),
        valid_utf8(y),
    ensures
        pat_at(x + m + y, q, p) <==> (pat_at(x, q, p) || (q >= x.len() && pat_at(
            m,
            q - x.len(),
            p,
        )) || (q >= x.len() + m.len() && pat_at(y, q - x.len() - m.len(), p))),
{
    assert(x + m + y =~= x + (m + y));
    lemma_pat_concat(x, m + y, q, p);
    lemma_pat_concat(m, y, q - x.len(), p);
}

/// Counting sentinels in a three-part concatenation, zone by zone.
pub proof fn lemma_count3(x: Seq<u8>, m: Seq<u8>, y: Seq<u8>, p: u8, k: int)
    requires
        valid_utf8(x),
        valid_utf8(m),
        valid_utf8(y),
        k <= x.len() + m.len() + y.len(),
    ensures
        k <= x.len() ==> count_pat(x + m + y, p, k) == count_pat(x, p, k),
        x.len() <= k <= x.len() + m.len() ==> count_pat(x + m + y, p, k) == count_pat(
            x,
            p,
            x.len() as int,
        ) + count_pat(m, p, k - x.len()),
        k >= x.len() + m.len() ==> count_pat(x + m + y, p, k) == count_pat(x, p, x.len() as int)
            + count_pat(m, p, m.len() as int) + count_pat(y, p, k - x.len() - m.len()),
{
    assert(x + m + y =~= x + (m + y));
    lemma_count_concat(x, m + y, p, k);
    lemma_count_concat(m, y, p, k - x.len());
    if k >= x.len() + m.len() {
        lemma_count_concat(m, y, p, m.len() as int);
    }
}

/// The general splice: replace the segment `[i, j)` of a well-formed buffer
/// by a valid middle part `m` whose region profile fits what surrounds it.
/// This covers character insertion, pasting (fresh region or extension),
/// attaching an image marker, and deleting a character or a whole region.
pub proof fn lemma_splice3(b: Seq<u8>, i: int, j: int, m: Seq<u8>)
    requires
        valid_utf8(b),
        regions_wf(b),
        0 <= i <= j <= b.len(),
        is_char_boundary(b, i),
        is_char_boundary(b, j),
        valid_utf8(m),
        forall|k: int| 0 <= k <= m.len() ==> 0 <= open_at(b, i) + #[trigger] open_at(m, k) <= 1,
        open_at(b, i) + open_at(m, m.len() as int) == open_at(b, j),
        forall|q: int| #[trigger] im_at(m, q) ==> open_at(b, i) + open_at(m, q) == 0,
    ensures
        ({
            let nb = b.subrange(0, i) + m + b.subrange(j, b.len() as int);
            &&& valid_utf8(nb)
            &&& regions_wf(nb)
            &&& nb.len() == b.len() - (j - i) + m.len()
            &&& forall|p: u8, k: int|
                0 <= k <= i ==> #[trigger] count_pat(nb, p, k) == count_pat(b, p, k)
            &&& forall|p: u8|
                #[trigger] count_pat(nb, p, nb.len() as int) == count_pat(b, p, i) + count_pat(
                    m,
                    p,
                    m.len() as int,
                ) + count_pat(b, p, b.len() as int) - count_pat(b, p, j)
            &&& forall|k: int|
                0 <= k <= m.len() ==> #[trigger] open_at(nb, i + k) == open_at(b, i) + open_at(
                    m,
                    k,
                )
            &&& forall|k: int|
                j <= k <= b.len() ==> #[trigger] open_at(nb, k - j + i + m.len()) == open_at(b, k)
            &&& forall|q: int| 0 <= q <= i ==> is_char_boundary(nb, q) == is_char_boundary(b, q)
            &&& forall|q: int|
                j <= q <= b.len() ==> #[trigger] is_char_boundary(nb, q - j + i + m.len())
                    == is_char_boundary(b, q)
            &&& is_char_boundary(nb, i + m.len())
        }),
{
    let n = b.len() as int;
    let x = b.subrange(0, i);
    let y = b.subrange(j, n);
    let nb = x + m + y;
    assert(valid_utf8(x)) by {
        vstd::utf8::valid_utf8_split(b, i);
    }
    assert(valid_utf8(y)) by {
        vstd::utf8::valid_utf8_split(b, j);
    }
    assert(valid_utf8(x + m));
    assert(nb =~= (x + m) + y);
    assert(valid_utf8(nb));
    // counts of b itself, zone by zone
    let seg = b.subrange(i, j);
    assert(valid_utf8(seg)) by {
        vstd::utf8::valid_utf8_split(b, j);
        let pre = b.subrange(0, j);
        assert(valid_utf8(pre));
        assert(is_char_boundary(pre, i)) by {
            if i < j {
                vstd::utf8::is_char_boundary_iff_not_is_continuation_byte(b, i);
                assert(pre[i] == b[i]);
                vstd::utf8::is_char_boundary_iff_not_is_continuation_byte(pre, i);
            }
        }
        vstd::utf8::valid_utf8_split(pre, i);
        assert(pre.subrange(i, j) =~= seg);
    }
    assert(b =~= x + seg + y);
    assert forall|p: u8, k: int| 0 <= k <= n implies ({
        &&& k <= i ==> #[trigger] count_pat(b, p, k) == count_pat(x, p, k)
        &&& i <= k <= j ==> count_pat(b, p, k) == count_pat(x, p, i) + count_pat(seg, p, k - i)
        &&& k >= j ==> count_pat(b, p, k) == count_pat(x, p, i) + count_pat(seg, p, j - i)
            + count_pat(y, p, k - j)
    }) by {
        lemma_count3(x, seg, y, p, k);
    }
    assert forall|p: u8, k: int| 0 <= k <= nb.len() implies ({
        &&& k <= i ==> #[trigger] count_pat(nb, p, k) == count_pat(x, p, k)
        &&& i <= k <= i + m.len() ==> count_pat(nb, p, k) == count_pat(x, p, i) + count_pat(
            m,
            p,
            k - i,
        )
        &&& k >= i + m.len() ==> count_pat(nb, p, k) == count_pat(x, p, i) + count_pat(
            m,
            p,
            m.len() as int,
        ) + count_pat(y, p, k - i - m.len())
    }) by {
        lemma_count3(x, m, y, p, k);
    }
    assert forall|p: u8, k: int| 0 <= k <= i implies #[trigger] count_pat(nb, p, k) == count_pat(
        b,
        p,
        k,
    ) by {}
    // region discipline of the new buffer
    assert forall|k: int| 0 <= k <= nb.len() implies 0 <= #[trigger] open_at(nb, k) <= 1 by {
        if k <= i {
            assert(open_at(nb, k) == open_at(b, k));
            assert(0 <= open_at(b, k) <= 1);
        } else if k <= i + m.len() {
            assert(open_at(nb, k) == open_at(b, i) + open_at(m, k - i));
        } else {
            let ko = k - i - m.len() + j;
            assert(open_at(nb, k) == open_at(b, i) + open_at(m, m.len() as int) + (open_at(b, ko)
                - open_at(b, j)));
            assert(0 <= open_at(b, ko) <= 1);
        }
    }
    assert(open_at(nb, nb.len() as int) == open_at(b, n) + open_at(b, i) + open_at(
        m,
        m.len() as int,
    ) - open_at(b, j));
    assert forall|q: int| #[trigger] im_at(nb, q) implies open_at(nb, q) == 0 by {
        lemma_pat3(x, m, y, q, IM_BYTE);
        if pat_at(x, q, IM_BYTE) {
            lemma_pat3(x, seg, y, q, IM_BYTE);
            assert(im_at(b, q));
            assert(open_at(b, q) == 0);
            assert(open_at(nb, q) == open_at(b, q));
        } else if q >= x.len() && q < x.len() + m.len() && pat_at(m, q - x.len(), IM_BYTE) {
            assert(im_at(m, q - x.len()));
            assert(open_at(b, i) + open_at(m, q - x.len()) == 0);
            assert(open_at(nb, q) == open_at(b, i) + open_at(m, q - i));
        } else {
            let qy = q - x.len() - m.len();
            assert(pat_at(y, qy, IM_BYTE));
            lemma_pat3(x, seg, y, qy + j, IM_BYTE);
            assert(im_at(b, qy + j));
            assert(open_at(b, qy + j) == 0);
            assert(open_at(nb, q) == open_at(b, i) + open_at(m, m.len() as int) + (open_at(
                b,
                qy + j,
            ) - open_at(b, j)));
        }
    }
    // boundary transfer
    assert forall|q: int| 0 <= q <= i implies is_char_boundary(nb, q) == is_char_boundary(
        b,
        q,
    ) by {
        if q < i {
            assert(nb[q] == b[q]);
            vstd::utf8::is_char_boundary_iff_not_is_continuation_byte(nb, q);
            vstd::utf8::is_char_boundary_iff_not_is_continuation_byte(b, q);
        } else {
            assert(is_char_boundary(b, i));
            assert(is_char_boundary(nb, i)) by {
                if i < nb.len() {
                    if m.len() > 0 {
                        assert(nb[i] == m[0]);
                        assert(!vstd::utf8::is_continuation_byte(m[0])) by {
                            assert(vstd::utf8::valid_first_scalar(m));
                            vstd::utf8::is_char_boundary_iff_not_is_continuation_byte(m, 0);
                        }
                    } else {
                        assert(nb[i] == y[0]);
                        assert(y[0] == b[j]);
                        assert(j < n);
                        vstd::utf8::is_char_boundary_iff_not_is_continuation_byte(b, j);
                    }
                    vstd::utf8::is_char_boundary_iff_not_is_continuation_byte(nb, i);
                } else {
                    assert(is_char_boundary(nb, nb.len() as int));
                }
            }
        }
    }
    assert forall|q: int| j <= q <= b.len() implies #[trigger] is_char_boundary(
        nb,
        q - j + i + m.len(),
    ) == is_char_boundary(b, q) by {
        if q < n {
            assert(nb[q - j + i + m.len()] == y[q - j]);
            assert(y[q - j] == b[q]);
            vstd::utf8::is_char_boundary_iff_not_is_continuation_byte(nb, q - j + i + m.len());
            vstd::utf8::is_char_boundary_iff_not_is_continuation_byte(b, q);
        } else {
            assert(is_char_boundary(nb, nb.len() as int));
            assert(is_char_boundary(b, n));
        }
    }
    assert(is_char_boundary(nb, i + m.len())) by {
        assert(is_char_boundary(nb, j - j + i + m.len()) == is_char_boundary(b, j));
    }
}

/// After a paste-start sentinel one region is open, and in a well-formed
/// buffer a paste-end sentinel follows to close it.
pub proof fn lemma_ss_closer(b: Seq<u8>, s: int)
    requires
        valid_utf8(b),
        regions_wf(b),
        ss_at(b, s),
    ensures
        open_at(b, s) == 0,
        open_at(b, s + 3) == 1,
        crate::editor::first_pat_from(b, SE_BYTE, s + 3) >= 0,
        ({
            let e = crate::editor::first_pat_from(b, SE_BYTE, s + 3);
            &&& se_at(b, e)
            &&& open_at(b, e + 3) == 0
            &&& is_char_boundary(b, e + 3)
        }),
{
    assert(is_char_boundary(b, s)) by {
        vstd::utf8::is_char_boundary_iff_not_is_continuation_byte(b, s);
    }
    assert(count_pat(b, SS_BYTE, s + 3) == count_pat(b, SS_BYTE, s) + 1 && count_pat(
        b,
        SE_BYTE,
        s + 3,
    ) == count_pat(b, SE_BYTE, s)) by {
        lemma_count_step_char(b, s, SS_BYTE);
        lemma_count_step_char(b, s, SE_BYTE);
        let t = b.subrange(s, b.len() as int);
        assert(valid_utf8(t)) by {
            vstd::utf8::valid_utf8_split(b, s);
        }
        assert(t[0] == 0xEFu8);
        assert(vstd::utf8::length_of_first_scalar(t) == 3);
    }
    assert(0 <= open_at(b, s) <= 1);
    assert(0 <= open_at(b, s + 3) <= 1);
    assert(open_at(b, s) == 0 && open_at(b, s + 3) == 1);
    let e = crate::editor::first_pat_from(b, SE_BYTE, s + 3);
    crate::editor::lemma_first_pat_from(b, SE_BYTE, s + 3);
    if e < 0 {
        // no end sentinel after the start: then no region ever closes again
        // and the buffer could not end with all regions closed
        assert(is_char_boundary(b, s + 3)) by {
            if s + 3 < b.len() {
                let t = b.subrange(s, b.len() as int);
                assert(valid_utf8(t)) by {
                    vstd::utf8::valid_utf8_split(b, s);
                }
                assert(is_char_boundary(t, 3)) by {
                    reveal_with_fuel(vstd::utf8::is_char_boundary, 2);
                    assert(vstd::utf8::length_of_first_scalar(t) == 3);
                }
                vstd::utf8::is_char_boundary_iff_not_is_continuation_byte(t, 3);
                assert(b[s + 3] == t[3]);
                vstd::utf8::is_char_boundary_iff_not_is_continuation_byte(b, s + 3);
            }
        }
        assert(count_pat(b, SE_BYTE, b.len() as int) == count_pat(b, SE_BYTE, s + 3)) by {
            assert forall|q: int|
                s + 1 <= q && q + 3 <= b.len() as int implies !pat_at(b, q, SE_BYTE) by {
                if pat_at(b, q, SE_BYTE) {
                    if q < s + 3 {
                        lemma_pat_interior(b, q, SE_BYTE);
                        assert(s + 3 == q + 1 || s + 3 == q + 2 || s + 3 == q + 3);
                        if s + 3 == q + 3 {
                            assert(b[q + 2] == SE_BYTE && b[s + 2] == SS_BYTE);
                        } else {
                            assert(is_char_boundary(b, s + 3));
                        }
                    }
                }
            }
            lemma_count_eq(b, SE_BYTE, s + 3, b.len() as int);
        }
        assert(count_pat(b, SS_BYTE, b.len() as int) >= count_pat(b, SS_BYTE, s + 3)) by {
            lemma_count_mono(b, SS_BYTE, s + 3, b.len() as int);
        }
        assert(open_at(b, b.len() as int) >= 1);
        assert(false);
    }
    assert(se_at(b, e));
    lemma_se_opener(b, e);
}

/// Stepping over one non-sentinel-start character keeps the number of open
/// regions, so movement over plain text stays outside every region.
pub proof fn lemma_open_step_char(b: Seq<u8>, p: int)
    requires
        valid_utf8(b),
        is_char_boundary(b, p),
        0 <= p < b.len(),
        !ss_at(b, p),
        !se_at(b, p),
    ensures
        ({
            let w = vstd::utf8::length_of_first_scalar(b.subrange(p, b.len() as int));
            open_at(b, p + w) == open_at(b, p)
        }),
{
    lemma_count_step_char(b, p, SS_BYTE);
    lemma_count_step_char(b, p, SE_BYTE);
}

/// Splitting a well-formed buffer at a boundary where no region is open
/// yields two standalone well-formed parts whose counts add up.
#[verifier::rlimit(50)]
#[verifier::spinoff_prover]
pub proof fn lemma_cut(b: Seq<u8>, i: int)
    requires
        valid_utf8(b),
        regions_wf(b),
        0 <= i <= b.len(),
        is_char_boundary(b, i),
        open_at(b, i) == 0,
    ensures
        ({
            let x = b.subrange(0, i);
            let y = b.subrange(i, b.len() as int);
            &&& valid_utf8(x)
            &&& valid_utf8(y)
            &&& regions_wf(x)
            &&& regions_wf(y)
            &&& forall|k: int|
                0 <= k <= i ==> #[trigger] count_pat(x, SS_BYTE, k) == count_pat(b, SS_BYTE, k)
                    && count_pat(x, SE_BYTE, k) == count_pat(b, SE_BYTE, k) && count_pat(
                    x,
                    IM_BYTE,
                    k,
                ) == count_pat(b, IM_BYTE, k)
            &&& forall|k: int|
                0 <= k <= y.len() ==> #[trigger] count_pat(y, SS_BYTE, k) == count_pat(
                    b,
                    SS_BYTE,
                    i + k,
                ) - count_pat(b, SS_BYTE, i) && count_pat(y, SE_BYTE, k) == count_pat(
                    b,
                    SE_BYTE,
                    i + k,
                ) - count_pat(b, SE_BYTE, i) && count_pat(y, IM_BYTE, k) == count_pat(
                    b,
                    IM_BYTE,
                    i + k,
                ) - count_pat(b, IM_BYTE, i)
        }),
{
    let x = b.subrange(0, i);
    let y = b.subrange(i, b.len() as int);
    assert(valid_utf8(x) && valid_utf8(y)) by {
        vstd::utf8::valid_utf8_split(b, i);
    }
    assert(b =~= x + y);
    assert forall|k: int| 0 <= k <= i implies #[trigger] count_pat(x, SS_BYTE, k) == count_pat(
        b,
        SS_BYTE,
        k,
    ) && count_pat(x, SE_BYTE, k) == count_pat(b, SE_BYTE, k) && count_pat(x, IM_BYTE, k)
        == count_pat(b, IM_BYTE, k) by {
        lemma_count_concat(x, y, SS_BYTE, k);
        lemma_count_concat(x, y, SE_BYTE, k);
        lemma_count_concat(x, y, IM_BYTE, k);
    }
    assert forall|k: int| 0 <= k <= y.len() implies #[trigger] count_pat(y, SS_BYTE, k)
        == count_pat(b, SS_BYTE, i + k) - count_pat(b, SS_BYTE, i) && count_pat(y, SE_BYTE, k)
        == count_pat(b, SE_BYTE, i + k) - count_pat(b, SE_BYTE, i) && count_pat(y, IM_BYTE, k)
        == count_pat(b, IM_BYTE, i + k) - count_pat(b, IM_BYTE, i) by {
        lemma_count_concat(x, y, SS_BYTE, i + k);
        lemma_count_concat(x, y, SE_BYTE, i + k);
        lemma_count_concat(x, y, IM_BYTE, i + k);
        lemma_count_concat(x, y, SS_BYTE, i);
        lemma_count_concat(x, y, SE_BYTE, i);
        lemma_count_concat(x, y, IM_BYTE, i);
    }
    assert(regions_wf(x)) by {
        assert forall|k: int| 0 <= k <= x.len() implies 0 <= #[trigger] open_at(x, k) <= 1 by {
            assert(count_pat(x, SS_BYTE, k) == count_pat(b, SS_BYTE, k));
            assert(0 <= open_at(b, k) <= 1);
        }
        assert(open_at(x, x.len() as int) == open_at(b, i) == 0);
        assert forall|m: int| #[trigger] im_at(x, m) implies open_at(x, m) == 0 by {
            lemma_pat_concat(x, y, m, IM_BYTE);
            assert(im_at(b, m));
        }
    }
    assert(regions_wf(y)) by {
        assert forall|k: int| 0 <= k <= y.len() implies 0 <= #[trigger] open_at(y, k) <= 1 by {
            assert(open_at(y, k) == open_at(b, i + k) - open_at(b, i));
        }
        assert(open_at(y, y.len() as int) == open_at(b, b.len() as int) - open_at(b, i) == 0);
        assert forall|m: int| #[trigger] im_at(y, m) implies open_at(y, m) == 0 by {
            lemma_pat_concat(x, y, i + m, IM_BYTE);
            assert(im_at(b, i + m));
            assert(open_at(y, m) == open_at(b, i + m) - open_at(b, i));
        }
    }
}

/// The encoding of a character other than the three reserved sentinels
/// contains no sentinel pattern.
pub proof fn lemma_char_pattern_free(ch: char)
    requires
        ch != crate::PASTE_START,
        ch != crate::PASTE_END,
        ch != crate::IMAGE_MARKER,
    ensures
        pattern_free(vstd::utf8::encode_scalar(ch as u32)),
{
    let u = ch as u32;
    let e = vstd::utf8::encode_scalar(u);
    assert forall|j: int, x: u8| !(#[trigger] pat_at(e, j, x)) || !(x == SS_BYTE || x == SE_BYTE
        || x == IM_BYTE) by {
        if pat_at(e, j, x) && (x == SS_BYTE || x == SE_BYTE || x == IM_BYTE) {
            if vstd::utf8::has_width_1_encoding(u) || vstd::utf8::has_width_2_encoding(u) {
                assert(e.len() <= 2);
            } else if vstd::utf8::has_width_3_encoding(u) {
                assert(e.len() == 3);
                assert(j == 0);
                assert(e[0] == vstd::utf8::leading_byte_width_3(u));
                assert(e[1] == vstd::utf8::second_last_continuation_byte(u));
                assert(e[2] == vstd::utf8::last_continuation_byte(u));
                assert((
                ((0xE0u8 | ((u >> 12) & 0x0Fu32) as u8) == 0xEFu8) && ((0x80u8 | ((u >> 6)
                    & 0x3Fu32) as u8) == 0xBFu8) && ((0x80u8 | (u & 0x3Fu32) as u8) == 0xB0u8
                    || (0x80u8 | (u & 0x3Fu32) as u8) == 0xB1u8 || (0x80u8 | (u
                    & 0x3Fu32) as u8) == 0xBCu8) && u <= 0xFFFFu32) ==> (u == 0xFFF0u32 || u
                    == 0xFFF1u32 || u == 0xFFFCu32)) by (bit_vector);
                assert(u == 0xFFF0 || u == 0xFFF1 || u == 0xFFFC);
                assert((u as char) == ch);
                assert(ch == crate::PASTE_START || ch == crate::PASTE_END || ch
                    == crate::IMAGE_MARKER);
            } else {
                assert(e.len() == 4);
                assert(j == 0 || j == 1);
                assert(e[0] == vstd::utf8::leading_byte_width_4(u));
                assert(e[1] == vstd::utf8::third_last_continuation_byte(u));
                assert((0xF0u8 | ((u >> 18) & 0x7u32) as u8) != 0xEFu8) by (bit_vector);
                assert((0x80u8 | ((u >> 12) & 0x3Fu32) as u8) != 0xEFu8) by (bit_vector);
            }
        }
    }
}

/// Region profile of a pasted text wrapped in start/end sentinels: exactly
/// one region, open strictly between the sentinels, with no image marker.
proof fn lemma_wrap_profile(t: Seq<u8>, k: int)
    requires
        valid_utf8(t),
        pattern_free(t),
        0 <= k <= t.len() + 6,
    ensures
        ({
            let m = crate::editor::ss_seq() + t + crate::editor::se_seq();
            &&& open_at(m, k) == if 3 <= k < m.len() {
                1int
            } else {
                0int
            }
            &&& count_pat(m, IM_BYTE, k) == 0
        }),
{
    let ss = crate::editor::ss_seq();
    let se = crate::editor::se_seq();
    let m = ss + t + se;
    assert(valid_utf8(ss) && valid_utf8(se)) by {
        crate::editor::lemma_sentinel_encodings();
        crate::editor::lemma_encode_singleton(crate::PASTE_START);
        crate::editor::lemma_encode_singleton(crate::PASTE_END);
        assert(ss == encode_utf8(seq![crate::PASTE_START]));
        assert(se == encode_utf8(seq![crate::PASTE_END]));
    }
    lemma_count3(ss, t, se, SS_BYTE, k);
    lemma_count3(ss, t, se, SE_BYTE, k);
    lemma_count3(ss, t, se, IM_BYTE, k);
    lemma_count_three(ss, SS_BYTE);
    lemma_count_three(ss, SE_BYTE);
    lemma_count_three(ss, IM_BYTE);
    lemma_count_three(se, SS_BYTE);
    lemma_count_three(se, SE_BYTE);
    lemma_count_three(se, IM_BYTE);
    assert(pat_at(ss, 0, SS_BYTE) && !pat_at(ss, 0, SE_BYTE) && !pat_at(ss, 0, IM_BYTE));
    assert(pat_at(se, 0, SE_BYTE) && !pat_at(se, 0, SS_BYTE) && !pat_at(se, 0, IM_BYTE));
    lemma_count_pattern_free(t, SS_BYTE, k - 3);
    lemma_count_pattern_free(t, SE_BYTE, k - 3);
    lemma_count_pattern_free(t, IM_BYTE, k - 3);
    lemma_count_pattern_free(t, SS_BYTE, t.len() as int);
    lemma_count_pattern_free(t, SE_BYTE, t.len() as int);
    lemma_count_pattern_free(t, IM_BYTE, t.len() as int);
    if k < 3 {
        lemma_count_zero_low(ss, SS_BYTE, k);
        lemma_count_zero_low(ss, SE_BYTE, k);
        lemma_count_zero_low(ss, IM_BYTE, k);
    }
    let q = k - 3 - t.len();
    if q < 3 {
        lemma_count_zero_low(se, SS_BYTE, q);
        lemma_count_zero_low(se, SE_BYTE, q);
        lemma_count_zero_low(se, IM_BYTE, q);
    }
}

/// A character that is not one of the three sentinels decodes from bytes
/// that hold no sentinel pattern, and conversely a sentinel pattern at a
/// boundary is that sentinel character.
pub proof fn lemma_nonpattern_char(b: Seq<u8>, i: int)
    requires
        valid_utf8(b),
        is_char_boundary(b, i),
        0 <= i < b.len(),
        !ss_at(b, i),
        !se_at(b, i),
        !im_at(b, i),
    ensures
        ({
            let c = vstd::utf8::decode_utf8(b.subrange(i, b.len() as int))[0];
            c != crate::PASTE_START && c != crate::PASTE_END && c != crate::IMAGE_MARKER
        }),
{
    let s = b.subrange(i, b.len() as int);
    assert(valid_utf8(s)) by {
        vstd::utf8::valid_utf8_split(b, i);
    }
    let c = vstd::utf8::decode_utf8(s)[0];
    assert(c == vstd::utf8::decode_first_scalar(s) as char);
    vstd::utf8::decode_utf8_first_scalar(s);
    crate::editor::lemma_sentinel_encodings();
    if c == crate::PASTE_START || c == crate::PASTE_END || c == crate::IMAGE_MARKER {
        assert(vstd::utf8::encode_scalar((vstd::utf8::decode_first_scalar(s) as char) as u32)
            == vstd::utf8::take_first_scalar(s));
        assert(vstd::utf8::length_of_first_scalar(s) == 3) by {
            assert(vstd::utf8::take_first_scalar(s).len() == 3);
        }
        assert(s[0] == 0xEFu8 && s[1] == 0xBFu8) by {
            assert(vstd::utf8::take_first_scalar(s)[0] == s[0]);
            assert(vstd::utf8::take_first_scalar(s)[1] == s[1]);
            assert(vstd::utf8::take_first_scalar(s)[2] == s[2]);
        }
        assert(b[i] == s[0] && b[i + 1] == s[1] && b[i + 2] == s[2]);
        assert(i + 3 <= b.len()) by {
            assert(vstd::utf8::valid_first_scalar(s));
            assert(vstd::utf8::valid_leading_and_continuation_bytes_first_codepoint(s));
        }
    }
}

/// Text of ASCII characters holds no sentinel pattern.
pub proof fn lemma_ascii_pattern_free(cs: Seq<char>)
    requires
        vstd::utf8::is_ascii_chars(cs),
    ensures
        pattern_free(encode_utf8(cs)),
{
    vstd::utf8::is_ascii_chars_encode_utf8(cs);
    let e = encode_utf8(cs);
    assert forall|j: int, x: u8| !(#[trigger] pat_at(e, j, x)) || !(x == SS_BYTE || x == SE_BYTE
        || x == IM_BYTE) by {
        if pat_at(e, j, x) {
            assert(e[j] == cs[j] as u8);
            assert(cs[j] <= '\u{7f}');
        }
    }
}

/// Pattern-free parts concatenate to a pattern-free whole.
pub proof fn lemma_pattern_free_concat(x: Seq<u8>, y: Seq<u8>)
    requires
        valid_utf8(x),
        valid_utf8(y),
        pattern_free(x),
        pattern_free(y),
    ensures
        pattern_free(x + y),
{
    assert forall|j: int, p: u8| !(#[trigger] pat_at(x + y, j, p)) || !(p == SS_BYTE || p
        == SE_BYTE || p == IM_BYTE) by {
        if pat_at(x + y, j, p) && (p == SS_BYTE || p == SE_BYTE || p == IM_BYTE) {
            lemma_pat_concat(x, y, j, p);
        }
    }
}

/// Inside a well-formed paste region no sentinel stands: the text between
/// a start sentinel and the first end sentinel after it is pattern-free.
pub proof fn lemma_region_interior_clean(b: Seq<u8>, s: int, e: int)
    requires
        valid_utf8(b),
        regions_wf(b),
        ss_at(b, s),
        se_at(b, e),
        s + 3 <= e,
        forall|v: int| s + 3 <= v < e ==> !se_at(b, v),
    ensures
        pattern_free(b.subrange(s + 3, e)),
{
    let seg = b.subrange(s + 3, e);
    lemma_ss_closer(b, s);
    lemma_se_opener(b, e);
    // the scanned start sentinel is the last one before the end sentinel
    assert forall|u: int| s < u && u + 3 <= e implies !pat_at(b, u, SS_BYTE) by {
        if pat_at(b, u, SS_BYTE) {
            if u < s + 3 {
                lemma_pat_interior(b, s, SS_BYTE);
                assert(is_char_boundary(b, u)) by {
                    vstd::utf8::is_char_boundary_iff_not_is_continuation_byte(b, u);
                }
            } else {
                // a second open region: the count discipline forbids it
                lemma_ss_closer(b, u);
                assert(count_pat(b, SS_BYTE, u) >= count_pat(b, SS_BYTE, s + 3)) by {
                    lemma_count_mono(b, SS_BYTE, s + 3, u);
                }
                assert(count_pat(b, SE_BYTE, u) == count_pat(b, SE_BYTE, s + 3)) by {
                    assert forall|v: int|
                        s + 1 <= v && v + 3 <= u implies !pat_at(b, v, SE_BYTE) by {
                        if pat_at(b, v, SE_BYTE) {
                            if v < s + 3 {
                                // the window would start inside the start sentinel
                                assert(b[v] == 0xEFu8);
                                assert(b[s + 1] == 0xBFu8 && b[s + 2] == SS_BYTE);
                            } else {
                                assert(v < e);
                                assert(!se_at(b, v));
                            }
                        }
                    }
                    lemma_count_eq(b, SE_BYTE, s + 3, u);
                }
                assert(open_at(b, u) >= open_at(b, s + 3));
            }
        }
    }
    crate::editor::lemma_last_pat_is(b, SS_BYTE, e, s);
    assert forall|j: int, p: u8| !(#[trigger] pat_at(seg, j, p)) || !(p == SS_BYTE || p
        == SE_BYTE || p == IM_BYTE) by {
        if pat_at(seg, j, p) && (p == SS_BYTE || p == SE_BYTE || p == IM_BYTE) {
            let u = s + 3 + j;
            assert(pat_at(b, u, p)) by {
                assert(seg[j] == b[s + 3 + j]);
                assert(seg[j + 1] == b[s + 3 + j + 1]);
                assert(seg[j + 2] == b[s + 3 + j + 2]);
            }
            assert(u + 3 <= e);
            if p == SE_BYTE {
                assert(!se_at(b, u));
            } else if p == SS_BYTE {
                assert(!pat_at(b, u, SS_BYTE));
            } else {
                assert(!pat_at(b, u, IM_BYTE));
            }
        }
    }
}

/// One pending image attachment: the encoded image data and its MIME type.
pub struct AttachmentUpload {
    /// Encoded image bytes, as the transport expects them.
    pub data: String,
    /// MIME type of the attachment.
    pub mime: String,
}

/// Count the image markers that lie entirely before byte `end`.
pub fn count_markers(value: &str, end: usize) -> (r: usize)
    requires
        end <= value.spec_bytes().len(),
    ensures
        r == count_pat(value.spec_bytes(), IM_BYTE, end as int),
{
    let bs = value.as_bytes();
    let mut i: usize = 0;
    let mut cnt: usize = 0;
    if end < 3 {
        return 0;
    }
    while i <= end - 3
        invariant
            3 <= end <= bs@.len(),
            i <= end - 2,
            cnt == count_pat(bs@, IM_BYTE, i + 2),
            cnt <= i,
        decreases end - i,
    {
        if bs[i] == 0xEF && bs[i + 1] == 0xBF && bs[i + 2] == IM_BYTE {
            cnt = cnt + 1;
        }
        i = i + 1;
    }
    cnt
}

/// What a backward deletion leaves behind: nothing at the buffer start, a
/// whole paste region when the cursor sits just after its end sentinel,
/// otherwise one code point, with the matching attachment dropped when the
/// deleted code point is an image sentinel.
pub open spec fn backspace_post(o: EditableBuffer, f: EditableBuffer, r: bool) -> bool {
    &&& (!r ==> f == o && o.cursor == 0)
    &&& (r ==> ({
        let b = o.bytes();
        let c = o.cursor as int;
        let p = crate::editor::prev_boundary(b, c);
        let sbk = crate::editor::spec_backspace(b, c);
        &&& c > 0
        &&& sbk matches Some(q) && f.bytes() == q.0 && f.cursor as int == q.1
        &&& (se_at(b, p) ==> f.attachments == o.attachments)
        &&& (!se_at(b, p) && im_at(b, p) ==> f.attachments@ == o.attachments@.remove(
            count_pat(b, IM_BYTE, p),
        ))
        &&& (!se_at(b, p) && !im_at(b, p) ==> f.attachments == o.attachments)
    }))
}

/// The editable input buffer: UTF-8 text with a byte cursor and the pending
/// image attachments, kept in lockstep with the image sentinels.
pub struct EditableBuffer {
    /// The logical text, sentinels included.
    pub text: String,
    /// Byte cursor into `text`.
    pub cursor: usize,
    /// Pending attachments, one per image sentinel, in marker order.
    pub attachments: Vec<AttachmentUpload>,
}

impl EditableBuffer {
    /// The buffer's UTF-8 bytes.
    pub open spec fn bytes(self) -> Seq<u8> {
        encode_utf8(self.text@)
    }

    /// The buffer invariant: the cursor is on a code-point boundary and
    /// outside every paste region, regions are properly nested and closed,
    /// and the buffer holds exactly one image sentinel per attachment.
    pub open spec fn inv(self) -> bool {
        let b = self.bytes();
        &&& self.cursor <= b.len()
        &&& is_char_boundary(b, self.cursor as int)
        &&& regions_wf(b)
        &&& open_at(b, self.cursor as int) == 0
        &&& count_pat(b, IM_BYTE, b.len() as int) == self.attachments.len()
    }

    /// A fresh empty buffer.
    pub fn new() -> (r: EditableBuffer)
        ensures
            r.inv(),
            r.text@ == Seq::<char>::empty(),
            r.cursor == 0,
            r.attachments@.len() == 0,
    {
        let r = EditableBuffer { text: String::new(), cursor: 0, attachments: Vec::new() };
        proof {
            assert(r.bytes() =~= Seq::<u8>::empty());
            assert(is_char_boundary(r.bytes(), 0));
            assert(count_pat(r.bytes(), IM_BYTE, 0) == 0);
            assert(forall|i: int| 0 <= i <= 0 ==> #[trigger] open_at(r.bytes(), i) == 0);
        }
        r
    }

    /// Reset the buffer; text, cursor and attachments are cleared together.
    pub fn clear(&mut self)
        ensures
            final(self).inv(),
            final(self).text@ == Seq::<char>::empty(),
            final(self).cursor == 0,
            final(self).attachments@.len() == 0,
    {
        let fresh = EditableBuffer::new();
        *self = fresh;
    }

    /// Splice one ordinary character at the cursor. The reserved sentinels
    /// are never inserted this way.
    pub fn insert_char(&mut self, ch: char)
        requires
            old(self).inv(),
            ch != crate::PASTE_START,
            ch != crate::PASTE_END,
            ch != crate::IMAGE_MARKER,
        ensures
            final(self).inv(),
            ({
                let b = old(self).bytes();
                let c = old(self).cursor as int;
                &&& final(self).bytes() == b.subrange(0, c) + vstd::utf8::encode_scalar(
                    ch as u32,
                ) + b.subrange(c, b.len() as int)
                &&& final(self).cursor == c + vstd::utf8::encode_scalar(ch as u32).len()
                &&& final(self).attachments == old(self).attachments
            }),
    {
        let ghost b = self.bytes();
        let ghost c = self.cursor as int;
        let ghost m = vstd::utf8::encode_scalar(ch as u32);
        proof {
            lemma_char_pattern_free(ch);
            assert(m =~= encode_utf8(seq![ch])) by {
                assert(seq![ch].drop_first() =~= Seq::<char>::empty());
                assert(encode_utf8(Seq::<char>::empty()) =~= Seq::<u8>::empty());
                assert(seq![ch][0] == ch);
                assert(encode_utf8(seq![ch]) =~= vstd::utf8::encode_scalar(ch as u32)
                    + encode_utf8(seq![ch].drop_first()));
            }
            assert(valid_utf8(m));
            assert forall|k: int| 0 <= k <= m.len() implies 0 <= open_at(b, c) + #[trigger]
            open_at(m, k) <= 1 by {
                lemma_count_pattern_free(m, SS_BYTE, k);
                lemma_count_pattern_free(m, SE_BYTE, k);
            }
            assert(open_at(m, m.len() as int) == 0) by {
                lemma_count_pattern_free(m, SS_BYTE, m.len() as int);
                lemma_count_pattern_free(m, SE_BYTE, m.len() as int);
            }
            assert(forall|q: int| !(#[trigger] im_at(m, q)));
            lemma_splice3(b, c, c, m);
        }
        crate::editor::insert_char(&mut self.text, &mut self.cursor, ch);
        proof {
            let nb = b.subrange(0, c) + m + b.subrange(c, b.len() as int);
            assert(self.bytes() == nb);
            assert(open_at(nb, c + m.len()) == open_at(b, c) + open_at(m, m.len() as int));
            assert(open_at(m, m.len() as int) == 0) by {
                lemma_count_pattern_free(m, SS_BYTE, m.len() as int);
                lemma_count_pattern_free(m, SE_BYTE, m.len() as int);
            }
            assert(count_pat(nb, IM_BYTE, nb.len() as int) == count_pat(b, IM_BYTE, c)
                + count_pat(m, IM_BYTE, m.len() as int) + count_pat(b, IM_BYTE, b.len() as int)
                - count_pat(b, IM_BYTE, c));
            assert(count_pat(m, IM_BYTE, m.len() as int) == 0) by {
                lemma_count_pattern_free(m, IM_BYTE, m.len() as int);
            }
        }
    }

    /// Move the cursor one step left; a paste region is crossed as a whole.
    /// The cursor stays on a boundary and outside every region.
    pub fn move_left(&mut self)
        requires
            old(self).inv(),
        ensures
            final(self).inv(),
            final(self).text == old(self).text,
            final(self).attachments == old(self).attachments,
            final(self).cursor as int == crate::editor::spec_cursor_left(
                old(self).bytes(),
                old(self).cursor as int,
            ),
    {
        let ghost b = self.bytes();
        let ghost c0 = self.cursor as int;
        proof {
            crate::editor::lemma_clamped_at_boundary(b, c0);
            if c0 > 0 {
                crate::editor::lemma_clamped(b, c0 - 1);
                let p = crate::editor::prev_boundary(b, c0);
                crate::editor::lemma_next_boundary_is(b, p, c0);
                if se_at(b, p) {
                    lemma_se_opener(b, p);
                } else {
                    if ss_at(b, p) {
                        lemma_ss_closer(b, p);
                        let t = b.subrange(p, b.len() as int);
                        assert(t[0] == 0xEFu8);
                        assert(vstd::utf8::length_of_first_scalar(t) == 3);
                        assert(open_at(b, c0) == 1);
                    }
                    lemma_open_step_char(b, p);
                }
            }
        }
        let r = crate::editor::cursor_left(self.text.as_str(), self.cursor);
        self.cursor = r;
    }

    /// Move the cursor one step right; a paste region is crossed as a
    /// whole. The cursor stays on a boundary and outside every region.
    pub fn move_right(&mut self)
        requires
            old(self).inv(),
        ensures
            final(self).inv(),
            final(self).text == old(self).text,
            final(self).attachments == old(self).attachments,
            final(self).cursor as int == crate::editor::spec_cursor_right(
                old(self).bytes(),
                old(self).cursor as int,
            ),
    {
        let ghost b = self.bytes();
        let ghost c0 = self.cursor as int;
        proof {
            crate::editor::lemma_clamped_at_boundary(b, c0);
            if c0 < b.len() {
                if ss_at(b, c0) {
                    lemma_ss_closer(b, c0);
                } else {
                    if se_at(b, c0) {
                        lemma_se_opener(b, c0);
                    }
                    lemma_open_step_char(b, c0);
                    crate::editor::lemma_char_width_facts(b, c0);
                }
            }
        }
        let r = crate::editor::cursor_right(self.text.as_str(), self.cursor);
        self.cursor = r;
    }

    /// Delete backward: a whole paste region in one step when the cursor
    /// sits just after its end sentinel, otherwise one code point; deleting
    /// an image sentinel drops the attachment at the matching ordinal.
    /// Returns false (and changes nothing) when the cursor is at the start.
    pub fn backspace(&mut self) -> (r: bool)
        requires
            old(self).inv(),
        ensures
            final(self).inv(),
            backspace_post(*old(self), *final(self), r),
    {
        let ghost b = self.bytes();
        let ghost c0 = self.cursor as int;
        if self.cursor == 0 {
            return false;
        }
        proof {
            crate::editor::lemma_clamped_at_boundary(b, c0);
            crate::editor::lemma_clamped(b, c0 - 1);
        }
        let p = crate::editor::clamp_cursor(self.text.as_str(), self.cursor - 1);
        proof {
            crate::editor::lemma_next_boundary_is(b, p as int, c0);
        }
        let bs = self.text.as_str().as_bytes();
        let n = bs.len();
        let se_prev = n - p >= 3 && bs[p] == 0xEF && bs[p + 1] == 0xBF && bs[p + 2] == SE_BYTE;
        let im_prev = n - p >= 3 && bs[p] == 0xEF && bs[p + 1] == 0xBF && bs[p + 2] == IM_BYTE;
        proof {
            assert(se_prev == se_at(b, p as int));
            assert(im_prev == im_at(b, p as int));
            if se_prev {
                lemma_se_opener(b, p as int);
                let s = last_pat_before(b, SS_BYTE, p as int);
                lemma_last_pat_before(b, SS_BYTE, p as int);
                // removing the whole region: both cut points are outside
                assert(c0 == p + 3) by {
                    let t = b.subrange(p as int, b.len() as int);
                    assert(valid_utf8(t)) by {
                        vstd::utf8::valid_utf8_split(b, p as int);
                    }
                    assert(t[0] == 0xEFu8);
                    assert(vstd::utf8::length_of_first_scalar(t) == 3);
                }
                assert(valid_utf8(Seq::<u8>::empty()));
                assert(forall|k: int|
                    0 <= k <= 0 ==> open_at(b, s) + #[trigger] open_at(Seq::<u8>::empty(), k)
                        == 0);
                lemma_splice3(b, s, c0, Seq::<u8>::empty());
                assert(count_pat(b, IM_BYTE, c0) == count_pat(b, IM_BYTE, s)) by {
                    lemma_count_eq(b, IM_BYTE, s, c0);
                }
            } else {
                // one code point: never a sentinel that opens or closes
                if ss_at(b, p as int) {
                    lemma_ss_closer(b, p as int);
                    let t = b.subrange(p as int, b.len() as int);
                    assert(t[0] == 0xEFu8);
                    assert(vstd::utf8::length_of_first_scalar(t) == 3);
                    assert(open_at(b, c0) == 1);
                }
                lemma_open_step_char(b, p as int);
                assert(open_at(b, p as int) == 0);
                assert(valid_utf8(Seq::<u8>::empty()));
                assert(forall|k: int|
                    0 <= k <= 0 ==> open_at(b, p as int) + #[trigger] open_at(
                        Seq::<u8>::empty(),
                        k,
                    ) == 0);
                lemma_splice3(b, p as int, c0, Seq::<u8>::empty());
                lemma_count_step_char(b, p as int, IM_BYTE);
                lemma_count_mono(b, IM_BYTE, c0, b.len() as int);
            }
        }
        if !se_prev && im_prev {
            let idx = count_markers(self.text.as_str(), p);
            self.attachments.remove(idx);
        }
        match crate::editor::handle_backspace(self.text.as_str(), self.cursor) {
            Some(pair) => {
                self.text = pair.0;
                self.cursor = pair.1;
                proof {
                    if se_prev {
                        let s = last_pat_before(b, SS_BYTE, p as int);
                        let nb = b.subrange(0, s) + Seq::<u8>::empty() + b.subrange(
                            c0,
                            b.len() as int,
                        );
                        assert(self.bytes() =~= nb);
                        assert(open_at(nb, s + 0) == open_at(b, s) + open_at(
                            Seq::<u8>::empty(),
                            0,
                        ));
                        assert(count_pat(Seq::<u8>::empty(), IM_BYTE, 0) == 0);
                    } else {
                        let nb = b.subrange(0, p as int) + Seq::<u8>::empty() + b.subrange(
                            c0,
                            b.len() as int,
                        );
                        assert(self.bytes() =~= nb);
                        assert(open_at(nb, p + 0) == open_at(b, p as int) + open_at(
                            Seq::<u8>::empty(),
                            0,
                        ));
                        assert(count_pat(Seq::<u8>::empty(), IM_BYTE, 0) == 0);
                    }
                }
                true
            },
            None => {
                proof {
                    assert(false);
                }
                true
            },
        }
    }

    /// Paste text at the cursor. A large paste becomes (or extends) a
    /// sentinel region; a small one is spliced as raw text at the cursor,
    /// even beside a region — the extend rule exists to avoid nesting
    /// sentinels, and a raw splice nests none. The cursor ends outside
    /// every region: just past the end sentinel when pasting before a
    /// region extended it, at the spliced position otherwise.
    #[verifier::rlimit(100)]
    pub fn insert_paste(&mut self, text: &str)
        requires
            old(self).inv(),
            pattern_free(text.spec_bytes()),
        ensures
            final(self).inv(),
            final(self).attachments == old(self).attachments,
            final(self).bytes() == crate::editor::spec_insert_paste(
                old(self).bytes(),
                old(self).cursor as int,
                text.spec_bytes(),
            ).0,
            ({
                let b = old(self).bytes();
                let c = old(self).cursor as int;
                let t = text.spec_bytes();
                let merged_before = crate::editor::is_large_paste(t) && !(c >= 3 && se_at(
                    b,
                    c - 3,
                )) && ss_at(b, c);
                &&& (!merged_before ==> final(self).cursor as int
                    == crate::editor::spec_insert_paste(b, c, t).1)
                &&& (merged_before ==> final(self).cursor as int
                    == crate::editor::spec_cursor_right(final(self).bytes(), c))
            }),
    {
        let ghost b = self.bytes();
        let ghost c0 = self.cursor as int;
        let ghost t = text.spec_bytes();
        proof {
            crate::editor::lemma_clamped_at_boundary(b, c0);
        }
        let bs = self.text.as_str().as_bytes();
        let n = bs.len();
        let se_prev = self.cursor >= 3 && bs[self.cursor - 3] == 0xEF && bs[self.cursor - 2]
            == 0xBF && bs[self.cursor - 1] == SE_BYTE;
        let ss_next = n - self.cursor >= 3 && bs[self.cursor] == 0xEF && bs[self.cursor + 1]
            == 0xBF && bs[self.cursor + 2] == SS_BYTE;
        let tlen = text.as_bytes().len();
        let large = crate::editor::line_count(text) >= crate::PASTE_LINE_THRESHOLD || tlen
            >= crate::PASTE_CHAR_THRESHOLD;
        proof {
            assert(se_prev == (c0 >= 3 && se_at(b, c0 - 3)));
            assert(ss_next == ss_at(b, c0));
            assert forall|k: int| 0 <= k <= t.len() implies #[trigger] open_at(t, k) == 0 by {
                lemma_count_pattern_free(t, SS_BYTE, k);
                lemma_count_pattern_free(t, SE_BYTE, k);
            }
            lemma_count_pattern_free(t, IM_BYTE, t.len() as int);
            assert(forall|q: int| !(#[trigger] im_at(t, q)));
            if !large {
                lemma_splice3(b, c0, c0, t);
            } else if se_prev {
                lemma_se_opener(b, c0 - 3);
                assert(open_at(b, c0 - 3) == 1);
                assert(is_char_boundary(b, c0 - 3)) by {
                    vstd::utf8::is_char_boundary_iff_not_is_continuation_byte(b, c0 - 3);
                }
                assert forall|k: int| 0 <= k <= t.len() implies 0 <= open_at(b, c0 - 3)
                    + #[trigger] open_at(t, k) <= 1 by {}
                lemma_splice3(b, c0 - 3, c0 - 3, t);
            } else if ss_next {
                lemma_ss_closer(b, c0);
                assert(open_at(b, c0 + 3) == 1);
                assert(is_char_boundary(b, c0 + 3)) by {
                    let u = b.subrange(c0, b.len() as int);
                    assert(valid_utf8(u)) by {
                        vstd::utf8::valid_utf8_split(b, c0);
                    }
                    assert(u[0] == 0xEFu8);
                    assert(vstd::utf8::length_of_first_scalar(u) == 3);
                    crate::editor::lemma_char_width_facts(b, c0);
                }
                lemma_splice3(b, c0 + 3, c0 + 3, t);
            } else {
                let m = crate::editor::ss_seq() + t + crate::editor::se_seq();
                crate::editor::lemma_sentinel_encodings();
                assert(valid_utf8(crate::editor::ss_seq()) && valid_utf8(
                    crate::editor::se_seq(),
                )) by {
                    crate::editor::lemma_encode_singleton(crate::PASTE_START);
                    crate::editor::lemma_encode_singleton(crate::PASTE_END);
                    assert(crate::editor::ss_seq() == encode_utf8(seq![crate::PASTE_START]));
                    assert(crate::editor::se_seq() == encode_utf8(seq![crate::PASTE_END]));
                }
                assert(valid_utf8(t));
                assert(valid_utf8(crate::editor::ss_seq() + t));
                assert(valid_utf8(m));
                // profile of the wrapped paste: one region, open in the middle
                assert forall|k: int| 0 <= k <= m.len() implies 0 <= open_at(b, c0) + #[trigger]
                open_at(m, k) <= 1 by {
                    lemma_wrap_profile(t, k);
                }
                assert(open_at(m, m.len() as int) == 0) by {
                    lemma_wrap_profile(t, m.len() as int);
                }
                assert forall|q: int| #[trigger] im_at(m, q) implies open_at(b, c0) + open_at(
                    m,
                    q,
                ) == 0 by {
                    lemma_pat3(crate::editor::ss_seq(), t, crate::editor::se_seq(), q, IM_BYTE);
                    assert(!pat_at(crate::editor::ss_seq(), 0, IM_BYTE));
                    assert(!pat_at(crate::editor::se_seq(), 0, IM_BYTE));
                }
                lemma_splice3(b, c0, c0, m);
                assert(count_pat(m, IM_BYTE, m.len() as int) == 0) by {
                    lemma_wrap_profile(t, m.len() as int);
                }
            }
        }
        let (nt, ncur) = crate::editor::insert_paste(self.text.as_str(), self.cursor, text);
        if large && !se_prev && ss_next {
            // the paste extended the region that starts at the cursor: put
            // the cursor after that region's end sentinel
            let ghost nb = b.subrange(0, c0 + 3) + t + b.subrange(c0 + 3, b.len() as int);
            proof {
                assert(encode_utf8(nt@) == nb);
                assert(ss_at(nb, c0)) by {
                    assert(nb[c0] == b[c0] && nb[c0 + 1] == b[c0 + 1] && nb[c0 + 2] == b[c0 + 2]);
                }
                assert(is_char_boundary(nb, c0));
                crate::editor::lemma_clamped_at_boundary(nb, c0);
                lemma_ss_closer(nb, c0);
            }
            let fixed = crate::editor::cursor_right(nt.as_str(), self.cursor);
            self.text = nt;
            self.cursor = fixed;
        } else {
            proof {
                if !large {
                    let nb = b.subrange(0, c0) + t + b.subrange(c0, b.len() as int);
                    assert(encode_utf8(nt@) == nb);
                    assert(open_at(nb, c0 + t.len()) == open_at(b, c0) + open_at(
                        t,
                        t.len() as int,
                    ));
                } else if se_prev {
                    let nb = b.subrange(0, c0 - 3) + t + b.subrange(c0 - 3, b.len() as int);
                    assert(encode_utf8(nt@) == nb);
                    assert(open_at(nb, c0 - (c0 - 3) + (c0 - 3) + t.len()) == open_at(b, c0));
                    assert(is_char_boundary(nb, c0 - (c0 - 3) + (c0 - 3) + t.len()));
                } else {
                    let m = crate::editor::ss_seq() + t + crate::editor::se_seq();
                    let nb = b.subrange(0, c0) + m + b.subrange(c0, b.len() as int);
                    assert(b.subrange(0, c0) + crate::editor::ss_seq() + t
                        + crate::editor::se_seq() + b.subrange(c0, b.len() as int) =~= nb);
                    assert(encode_utf8(nt@) == nb);
                    assert(open_at(nb, c0 + m.len()) == open_at(b, c0) + open_at(
                        m,
                        m.len() as int,
                    ));
                    assert(ncur == c0 + m.len());
                }
            }
            self.text = nt;
            self.cursor = ncur;
        }
    }

    /// Attach one image: an image sentinel is spliced at the cursor and the
    /// attachment enters the pending list at the sentinel's ordinal, so
    /// markers and attachments stay matched one to one, in order.
    pub fn attach_image(&mut self, data: String, mime: String)
        requires
            old(self).inv(),
        ensures
            final(self).inv(),
            final(self).attachments@.len() == old(self).attachments@.len() + 1,
            ({
                let b = old(self).bytes();
                let c = old(self).cursor as int;
                &&& final(self).bytes() == b.subrange(0, c) + crate::editor::im_seq()
                    + b.subrange(c, b.len() as int)
                &&& final(self).cursor == c + 3
                &&& final(self).attachments@ == old(self).attachments@.insert(
                    count_pat(b, IM_BYTE, c),
                    final(self).attachments@[count_pat(b, IM_BYTE, c)],
                )
            }),
    {
        let ghost b = self.bytes();
        let ghost c0 = self.cursor as int;
        let ghost m = crate::editor::im_seq();
        proof {
            crate::editor::lemma_sentinel_encodings();
            crate::editor::lemma_encode_singleton(crate::IMAGE_MARKER);
            assert(m == encode_utf8(seq![crate::IMAGE_MARKER]));
            assert(valid_utf8(m));
            assert(vstd::utf8::encode_scalar(crate::IMAGE_MARKER as u32) == m);
            assert forall|k: int| 0 <= k <= m.len() implies 0 <= open_at(b, c0) + #[trigger]
            open_at(m, k) <= 1 by {
                assert(count_pat(m, SS_BYTE, k) == 0) by {
                    lemma_count_zero(m, SS_BYTE, k);
                    assert(forall|q: int| !(#[trigger] pat_at(m, q, SS_BYTE)));
                }
                assert(count_pat(m, SE_BYTE, k) == 0) by {
                    lemma_count_zero(m, SE_BYTE, k);
                    assert(forall|q: int| !(#[trigger] pat_at(m, q, SE_BYTE)));
                }
            }
            assert forall|q: int| #[trigger] im_at(m, q) implies open_at(b, c0) + open_at(m, q)
                == 0 by {
                assert(q == 0);
                assert(count_pat(m, SS_BYTE, 0) == 0 && count_pat(m, SE_BYTE, 0) == 0);
            }
            assert(open_at(m, m.len() as int) == 0) by {
                lemma_count_three(m, SS_BYTE);
                lemma_count_three(m, SE_BYTE);
            }
            lemma_splice3(b, c0, c0, m);
            lemma_count_mono(b, IM_BYTE, c0, b.len() as int);
        }
        let idx = count_markers(self.text.as_str(), self.cursor);
        crate::editor::insert_char(&mut self.text, &mut self.cursor, crate::IMAGE_MARKER);
        self.attachments.insert(idx, AttachmentUpload { data, mime });
        proof {
            let nb = b.subrange(0, c0) + m + b.subrange(c0, b.len() as int);
            assert(self.bytes() == nb);
            assert(open_at(nb, c0 + m.len()) == open_at(b, c0) + open_at(m, m.len() as int));
            assert(open_at(m, 3) == 0) by {
                lemma_count_three(m, SS_BYTE);
                lemma_count_three(m, SE_BYTE);
            }
            assert(count_pat(m, IM_BYTE, 3) == 1) by {
                lemma_count_three(m, IM_BYTE);
                assert(pat_at(m, 0, IM_BYTE));
            }
        }
    }


    /// Jump the cursor to the start of the buffer.
    pub fn move_home(&mut self)
        requires
            old(self).inv(),
        ensures
            final(self).inv(),
            *final(self) == (EditableBuffer { cursor: 0, ..*old(self) }),
    {
        proof {
            let b = self.bytes();
            assert(vstd::utf8::is_char_boundary(b, 0));
            assert(count_pat(b, SS_BYTE, 0) == 0 && count_pat(b, SE_BYTE, 0) == 0);
        }
        self.cursor = 0;
    }

    /// Jump the cursor to the end of the buffer.
    pub fn move_end(&mut self)
        requires
            old(self).inv(),
        ensures
            final(self).inv(),
            *final(self) == (EditableBuffer { cursor: final(self).cursor, ..*old(self) }),
            final(self).cursor as int == old(self).bytes().len(),
    {
        proof {
            let b = self.bytes();
            assert(vstd::utf8::is_char_boundary(b, b.len() as int)) by {
                broadcast use vstd::utf8::group_utf8_lib;

            }
        }
        let n = self.text.as_str().as_bytes().len();
        self.cursor = n;
    }

    /// The text to submit over the protocol: every sentinel stripped, the
    /// pasted content kept verbatim.
    pub fn submission_text(&self) -> (r: String)
        ensures
            encode_utf8(r@) == crate::editor::strip_spec(self.bytes()),
    {
        crate::editor::strip_sentinels(self.text.as_str())
    }
}

/// Law: deleting backward immediately after pasting text that was wrapped
/// in a fresh paste region restores the buffer content and the cursor
/// exactly. (Pasting next to an existing region extends that region
/// instead, and deleting then removes the merged region: such positions
/// are excluded here.)
#[verifier::rlimit(100)]
#[verifier::spinoff_prover]
pub proof fn lemma_paste_backspace_round_trip(b: Seq<u8>, cursor: int, t: Seq<u8>)
    requires
        valid_utf8(b),
        valid_utf8(t),
        pattern_free(t),
        crate::editor::is_large_paste(t),
        0 <= cursor <= b.len(),
        is_char_boundary(b, cursor),
        !(cursor >= 3 && se_at(b, cursor - 3)),
        !ss_at(b, cursor),
    ensures
        ({
            let r = crate::editor::spec_insert_paste(b, cursor, t);
            let bk = crate::editor::spec_backspace(r.0, r.1);
            bk matches Some(q) && q.0 == b && q.1 == cursor
        }),
{
    let n = b.len() as int;
    let ss = crate::editor::ss_seq();
    let se = crate::editor::se_seq();
    crate::editor::lemma_clamped_at_boundary(b, cursor);
    let c = cursor;
    let x = b.subrange(0, c);
    let y = b.subrange(c, n);
    let m = ss + t + se;
    let r = crate::editor::spec_insert_paste(b, cursor, t);
    assert(r.0 =~= x + m + y) by {
        assert(b.subrange(0, c) + ss + t + se + b.subrange(c, n) =~= x + m + y);
    }
    assert(r.1 == c + t.len() + 6);
    let nb = x + m + y;
    let c2 = c + m.len();
    assert(valid_utf8(x) && valid_utf8(y)) by {
        vstd::utf8::valid_utf8_split(b, c);
    }
    assert(valid_utf8(ss) && valid_utf8(se)) by {
        crate::editor::lemma_sentinel_encodings();
        crate::editor::lemma_encode_singleton(crate::PASTE_START);
        crate::editor::lemma_encode_singleton(crate::PASTE_END);
        assert(ss == encode_utf8(seq![crate::PASTE_START]));
        assert(se == encode_utf8(seq![crate::PASTE_END]));
    }
    assert(valid_utf8(ss + t));
    assert(valid_utf8(m));
    assert(valid_utf8(x + m));
    assert(nb =~= (x + m) + y);
    assert(valid_utf8(nb));
    // the pasted cursor sits on a boundary, right after the end sentinel
    assert(se_at(nb, c2 - 3)) by {
        assert(nb[c2 - 3] == m[m.len() - 3] && nb[c2 - 2] == m[m.len() - 2] && nb[c2 - 1]
            == m[m.len() - 1]);
        assert(m[m.len() - 3] == se[0] && m[m.len() - 2] == se[1] && m[m.len() - 1] == se[2]);
    }
    assert(is_char_boundary(nb, c2)) by {
        if c2 < nb.len() {
            assert(nb[c2] == y[0]);
            assert(y[0] == b[c]);
            vstd::utf8::is_char_boundary_iff_not_is_continuation_byte(b, c);
            vstd::utf8::is_char_boundary_iff_not_is_continuation_byte(nb, c2);
        } else {
            assert(is_char_boundary(nb, nb.len() as int));
        }
    }
    crate::editor::lemma_clamped_at_boundary(nb, c2);
    // the previous boundary is the end sentinel's start
    assert(crate::editor::prev_boundary(nb, c2) == c2 - 3) by {
        lemma_pat_interior(nb, c2 - 3, SE_BYTE);
        assert(is_char_boundary(nb, c2 - 3)) by {
            vstd::utf8::is_char_boundary_iff_not_is_continuation_byte(nb, c2 - 3);
        }
        crate::editor::lemma_clamped_value(nb, c2 - 1, c2 - 3);
    }
    // the matching start sentinel is the one the paste created
    assert(last_pat_before(nb, SS_BYTE, c2 - 3) == c) by {
        assert(pat_at(nb, c, SS_BYTE)) by {
            assert(nb[c] == m[0] && nb[c + 1] == m[1] && nb[c + 2] == m[2]);
            assert(m[0] == ss[0] && m[1] == ss[1] && m[2] == ss[2]);
        }
        assert forall|j: int| c < j && j + 3 <= c2 - 3 implies !pat_at(nb, j, SS_BYTE) by {
            if pat_at(nb, j, SS_BYTE) {
                lemma_pat3(x, m, y, j, SS_BYTE);
                assert(pat_at(m, j - c, SS_BYTE));
                lemma_pat3(ss, t, se, j - c, SS_BYTE);
                assert(!pat_at(ss, j - c, SS_BYTE));
                assert(!pat_at(se, j - c - 3 - t.len(), SS_BYTE)) by {
                    assert(j - c - 3 - t.len() + 3 <= se.len());
                    if j - c - 3 - t.len() == 0 {
                        assert(se[2] == SE_BYTE);
                    }
                }
            }
        }
        crate::editor::lemma_last_pat_is(nb, SS_BYTE, c2 - 3, c);
    }
    let bk = crate::editor::spec_backspace(nb, c2);
    assert(bk matches Some(q) && q.0 == b && q.1 == c) by {
        assert(nb.subrange(0, c) =~= x);
        assert(nb.subrange(c2, nb.len() as int) =~= y);
        assert(x + y =~= b);
    }
}

} // verus!
