//! The text editing model: a UTF-8 string with a byte cursor that is always
//! kept on a code-point boundary, plus three reserved sentinel characters
//! that delimit inline non-text regions (paste regions and image markers).
//!
//! All reasoning is done over the UTF-8 byte encoding of the buffer
//! (`spec_bytes`). Each sentinel is a three-byte encoding starting with
//! `0xEF 0xBF`, and in valid UTF-8 those three bytes can only occur as the
//! complete encoding of the sentinel itself, so byte-level pattern search
//! coincides with character search.
use vstd::prelude::*;

verus! {

broadcast use vstd::utf8::group_utf8_lib;

use vstd::string::StringSliceAdditionalSpecFns;
use vstd::string::StrSliceExecFns;
use vstd::string::StringExecFns;
use vstd::utf8::is_char_boundary;
use vstd::utf8::valid_utf8;
use vstd::utf8::decode_utf8;
use vstd::utf8::encode_utf8;
use vstd::utf8::encode_scalar;
use vstd::utf8::length_of_first_scalar;

/// Third byte of the paste-start sentinel's UTF-8 encoding.
pub const SS_BYTE: u8 = 0xB0;

/// Third byte of the paste-end sentinel's UTF-8 encoding.
pub const SE_BYTE: u8 = 0xB1;

/// Third byte of the image-marker sentinel's UTF-8 encoding.
pub const IM_BYTE: u8 = 0xBC;

/// True when the three-byte window of `b` starting at `i` is the UTF-8
/// encoding of the sentinel whose final byte is `x`.
pub open spec fn pat_at(b: Seq<u8>, i: int, x: u8) -> bool {
    &&& 0 <= i
    &&& i + 3 <= b.len()
    &&& b[i] == 0xEFu8
    &&& b[i + 1] == 0xBFu8
    &&& b[i + 2] == x
}

/// A paste-start sentinel starts at byte `i`.
pub open spec fn ss_at(b: Seq<u8>, i: int) -> bool {
    pat_at(b, i, SS_BYTE)
}

/// A paste-end sentinel starts at byte `i`.
pub open spec fn se_at(b: Seq<u8>, i: int) -> bool {
    pat_at(b, i, SE_BYTE)
}

/// An image-marker sentinel starts at byte `i`.
pub open spec fn im_at(b: Seq<u8>, i: int) -> bool {
    pat_at(b, i, IM_BYTE)
}

/// The cursor clamped to the nearest code-point boundary at or before
/// `min(cursor, b.len())`.
pub open spec fn clamped(b: Seq<u8>, cursor: int) -> int
    decreases cursor,
{
    if cursor <= 0 {
        0
    } else if cursor > b.len() {
        b.len() as int
    } else if is_char_boundary(b, cursor) {
        cursor
    } else {
        clamped(b, cursor - 1)
    }
}

/// Basic facts about `clamped`: the result is a boundary at or before the
/// requested position, and no boundary lies strictly between the two.
pub proof fn lemma_clamped(b: Seq<u8>, cursor: int)
    requires
        valid_utf8(b),
    ensures
        0 <= clamped(b, cursor) <= b.len(),
        clamped(b, cursor) <= cursor || clamped(b, cursor) == 0,
        is_char_boundary(b, clamped(b, cursor)),
        forall|j: int|
            clamped(b, cursor) < j <= cursor && j <= b.len() ==> !is_char_boundary(b, j),
    decreases cursor,
{
    if cursor <= 0 {
    } else if cursor > b.len() {
    } else if is_char_boundary(b, cursor) {
    } else {
        lemma_clamped(b, cursor - 1);
    }
}

/// Clamp a byte cursor to the nearest code-point boundary at or before it,
/// so that every key-handling operation starts from a valid position.
pub fn clamp_cursor(value: &str, cursor: usize) -> (r: usize)
    ensures
        r == clamped(value.spec_bytes(), cursor as int),
{
    let ghost b = value.spec_bytes();
    proof {
        assert(b == encode_utf8(value@));
        assert(valid_utf8(b));
        lemma_clamped(b, cursor as int);
    }
    let n = value.as_bytes().len();
    assert(n == b.len());
    let mut idx: usize = if cursor < n {
        cursor
    } else {
        n
    };
    assert(clamped(b, cursor as int) == clamped(b, idx as int)) by {
        reveal_with_fuel(clamped, 2);
        assert(is_char_boundary(b, b.len() as int));
        lemma_clamped(b, idx as int);
    }
    while idx > 0 && !value.is_char_boundary(idx)
        invariant
            idx <= b.len(),
            valid_utf8(b),
            b == value.spec_bytes(),
            clamped(b, cursor as int) == clamped(b, idx as int),
        decreases idx,
    {
        idx = idx - 1;
    }
    proof {
        if idx == 0 {
            assert(is_char_boundary(b, 0));
        }
        lemma_clamped(b, idx as int);
    }
    idx
}

/// Clamping does not move a cursor that already sits on a boundary.
pub proof fn lemma_clamped_at_boundary(b: Seq<u8>, c: int)
    requires
        valid_utf8(b),
        0 <= c <= b.len(),
        is_char_boundary(b, c),
    ensures
        clamped(b, c) == c,
{
}

/// The clamped cursor is pinned by naming the nearest boundary.
pub proof fn lemma_clamped_value(b: Seq<u8>, k: int, v: int)
    requires
        valid_utf8(b),
        0 <= v <= k <= b.len(),
        is_char_boundary(b, v),
        forall|j: int| v < j <= k ==> !is_char_boundary(b, j),
    ensures
        clamped(b, k) == v,
    decreases k,
{
    if k == v {
        lemma_clamped_at_boundary(b, k);
    } else {
        lemma_clamped_value(b, k - 1, v);
    }
}

/// Shape of the character starting at boundary `p`: its width, that it
/// fits, that the next boundary follows it, and that its interior holds no
/// boundary.
pub proof fn lemma_char_width_facts(b: Seq<u8>, p: int)
    requires
        valid_utf8(b),
        is_char_boundary(b, p),
        0 <= p < b.len(),
    ensures
        ({
            let w = length_of_first_scalar(b.subrange(p, b.len() as int));
            &&& 1 <= w <= 4
            &&& p + w <= b.len()
            &&& is_char_boundary(b, p + w)
            &&& forall|j: int| p < j < p + w ==> !is_char_boundary(b, j)
        }),
{
    let n = b.len() as int;
    let s = b.subrange(p, n);
    assert(valid_utf8(s)) by {
        vstd::utf8::valid_utf8_split(b, p);
    }
    assert(vstd::utf8::valid_first_scalar(s));
    let w = length_of_first_scalar(s);
    assert(vstd::utf8::valid_leading_and_continuation_bytes_first_codepoint(s));
    assert(p + w <= n);
    assert forall|j: int| p < j < p + w implies !is_char_boundary(b, j) by {
        assert(vstd::utf8::is_continuation_byte(s[j - p]));
        assert(b[j] == s[j - p]);
        vstd::utf8::is_char_boundary_iff_not_is_continuation_byte(b, j);
    }
    if p + w < n {
        assert(is_char_boundary(s, w)) by {
            reveal_with_fuel(is_char_boundary, 2);
        }
        vstd::utf8::is_char_boundary_iff_not_is_continuation_byte(s, w);
        assert(b[p + w] == s[w]);
        vstd::utf8::is_char_boundary_iff_not_is_continuation_byte(b, p + w);
    } else {
        assert(is_char_boundary(b, n));
    }
}

/// Two consecutive boundaries are exactly one character apart.
pub proof fn lemma_next_boundary_is(b: Seq<u8>, p: int, c: int)
    requires
        valid_utf8(b),
        is_char_boundary(b, p),
        is_char_boundary(b, c),
        0 <= p < c <= b.len(),
        forall|j: int| p < j < c ==> !is_char_boundary(b, j),
    ensures
        c == p + length_of_first_scalar(b.subrange(p, b.len() as int)),
{
    lemma_char_width_facts(b, p);
}

/// The nearest code-point boundary strictly before boundary `c` (for `c > 0`).
pub open spec fn prev_boundary(b: Seq<u8>, c: int) -> int {
    clamped(b, c - 1)
}

/// Start index of the last sentinel with final byte `x` that lies entirely
/// before byte `end`, or -1 when there is none.
pub open spec fn last_pat_before(b: Seq<u8>, x: u8, end: int) -> int
    decreases end,
{
    if end < 3 {
        -1
    } else if pat_at(b, end - 3, x) {
        end - 3
    } else {
        last_pat_before(b, x, end - 1)
    }
}

/// Start index of the first sentinel with final byte `x` at or after byte
/// `start`, or -1 when there is none.
pub open spec fn first_pat_from(b: Seq<u8>, x: u8, start: int) -> int
    decreases b.len() - start,
{
    if start < 0 || start + 3 > b.len() {
        -1
    } else if pat_at(b, start, x) {
        start
    } else {
        first_pat_from(b, x, start + 1)
    }
}

/// UTF-8 concatenates encoding-wise: the encoding of `a + b` is the
/// encoding of `a` followed by the encoding of `b`.
pub proof fn lemma_encode_utf8_concat(a: Seq<char>, b: Seq<char>)
    ensures
        encode_utf8(a + b) == encode_utf8(a) + encode_utf8(b),
    decreases a.len(),
{
    if a.len() == 0 {
        assert(a + b =~= b);
        assert(encode_utf8(a) + encode_utf8(b) =~= encode_utf8(b));
    } else {
        assert((a + b).drop_first() =~= a.drop_first() + b);
        lemma_encode_utf8_concat(a.drop_first(), b);
        assert((a + b)[0] == a[0]);
        assert(encode_utf8(a + b) =~= encode_scalar(a[0] as u32) + (encode_utf8(a.drop_first())
            + encode_utf8(b)));
        assert(encode_scalar(a[0] as u32) + (encode_utf8(a.drop_first()) + encode_utf8(b)) =~= (
        encode_scalar(a[0] as u32) + encode_utf8(a.drop_first())) + encode_utf8(b));
    }
}

/// A byte index where a sentinel pattern starts is always a code-point
/// boundary: 0xEF is a leading byte, never a continuation byte.
pub proof fn lemma_pat_is_boundary(b: Seq<u8>, i: int)
    requires
        valid_utf8(b),
        0 <= i < b.len(),
        b[i] == 0xEFu8,
    ensures
        is_char_boundary(b, i),
{
    vstd::utf8::is_char_boundary_iff_not_is_continuation_byte(b, i);
}

/// Find the last sentinel with final byte `x` entirely before `end`.
fn scan_last_pat(bs: &[u8], x: u8, end: usize) -> (r: Option<usize>)
    requires
        end <= bs@.len(),
    ensures
        ({
            let f = last_pat_before(bs@, x, end as int);
            if f < 0 {
                r is None
            } else {
                r matches Some(i) && i as int == f
            }
        }),
{
    let mut e = end;
    while e >= 3
        invariant
            e <= end <= bs@.len(),
            last_pat_before(bs@, x, end as int) == last_pat_before(bs@, x, e as int),
        decreases e,
    {
        if bs[e - 3] == 0xEF && bs[e - 2] == 0xBF && bs[e - 1] == x {
            return Some(e - 3);
        }
        e = e - 1;
    }
    None
}

/// Find the first sentinel with final byte `x` at or after `start`.
pub(crate) fn scan_first_pat(bs: &[u8], x: u8, start: usize) -> (r: Option<usize>)
    ensures
        ({
            let f = first_pat_from(bs@, x, start as int);
            if f < 0 {
                r is None
            } else {
                r matches Some(i) && i as int == f
            }
        }),
{
    let n = bs.len();
    if n < 3 {
        return None;
    }
    let mut i = start;
    while i <= n - 3
        invariant
            n == bs@.len(),
            n >= 3,
            start <= i,
            first_pat_from(bs@, x, start as int) == first_pat_from(bs@, x, i as int),
        decreases n - i,
    {
        if bs[i] == 0xEF && bs[i + 1] == 0xBF && bs[i + 2] == x {
            return Some(i);
        }
        i = i + 1;
    }
    None
}

/// Byte width of the code point starting at boundary `i`, read off the
/// leading byte.
pub(crate) fn scalar_width_at(bs: &[u8], i: usize) -> (w: usize)
    requires
        valid_utf8(bs@),
        is_char_boundary(bs@, i as int),
        i < bs@.len(),
    ensures
        w == length_of_first_scalar(bs@.subrange(i as int, bs@.len() as int)),
        1 <= w <= 4,
        i + w <= bs@.len(),
        is_char_boundary(bs@, i + w),
{
    let ghost b = bs@;
    let ghost s = b.subrange(i as int, b.len() as int);
    proof {
        assert(valid_utf8(s));
        assert(vstd::utf8::valid_first_scalar(s));
        assert(s[0] == b[i as int]);
    }
    let b0 = bs[i];
    let w: usize = if b0 < 0x80 {
        1
    } else if b0 < 0xE0 {
        2
    } else if b0 < 0xF0 {
        3
    } else {
        4
    };
    proof {
        assert(!vstd::utf8::is_continuation_byte(s[0]));
        assert(w == length_of_first_scalar(s));
        assert(i + w <= b.len());
        if i + w < b.len() {
            assert(b[i + w] == s[w as int]);
            assert(is_char_boundary(s, w as int)) by {
                reveal_with_fuel(is_char_boundary, 2);
            }
            vstd::utf8::is_char_boundary_iff_not_is_continuation_byte(s, w as int);
            vstd::utf8::is_char_boundary_iff_not_is_continuation_byte(b, i + w);
        } else {
            assert(is_char_boundary(b, b.len() as int));
        }
    }
    w
}

/// First character of a string slice.
pub(crate) fn first_char(s: &str) -> (r: Option<char>)
    ensures
        s@.len() == 0 ==> r is None,
        s@.len() > 0 ==> (r matches Some(c) && c == s@[0]),
{
    let mut it = s.chars();
    it.next()
}

/// The character whose encoding starts at the clamped cursor, if the cursor
/// is not at the end of the buffer.
pub fn char_at(value: &str, cursor: usize) -> (r: Option<char>)
    ensures
        ({
            let b = value.spec_bytes();
            let c = clamped(b, cursor as int);
            if c >= b.len() {
                r is None
            } else {
                r matches Some(ch) && ch == decode_utf8(b.subrange(c, b.len() as int))[0]
            }
        }),
{
    let ghost b = value.spec_bytes();
    let c = clamp_cursor(value, cursor);
    let n = value.as_bytes().len();
    if c >= n {
        return None;
    }
    proof {
        lemma_clamped(b, cursor as int);
    }
    let (_, rest) = value.split_at(c);
    proof {
        let sub = b.subrange(c as int, b.len() as int);
        assert(rest.spec_bytes() == sub);
        assert(encode_utf8(rest@) == sub);
        assert(decode_utf8(encode_utf8(rest@)) == rest@);
        if rest@.len() == 0 {
            assert(encode_utf8(rest@) =~= Seq::<u8>::empty());
            assert(sub.len() > 0);
            assert(false);
        }
        assert(rest@[0] == decode_utf8(sub)[0]);
    }
    first_char(rest)
}

/// Start byte of the previous character before the clamped cursor, if any.
pub fn prev_char_start(value: &str, cursor: usize) -> (r: Option<usize>)
    ensures
        ({
            let b = value.spec_bytes();
            let c = clamped(b, cursor as int);
            if c == 0 {
                r is None
            } else {
                r matches Some(p) && p as int == prev_boundary(b, c)
            }
        }),
{
    let c = clamp_cursor(value, cursor);
    if c == 0 {
        return None;
    }
    proof {
        lemma_clamped(value.spec_bytes(), cursor as int);
    }
    let p = clamp_cursor(value, c - 1);
    Some(p)
}

/// What `last_pat_before` finds is a sentinel start, and the greatest one.
pub proof fn lemma_last_pat_before(b: Seq<u8>, x: u8, end: int)
    ensures
        ({
            let f = last_pat_before(b, x, end);
            &&& f >= 0 ==> pat_at(b, f, x) && f + 3 <= end
            &&& forall|j: int| f < j && j + 3 <= end ==> !pat_at(b, j, x)
        }),
    decreases end,
{
    if end < 3 {
    } else if pat_at(b, end - 3, x) {
    } else {
        lemma_last_pat_before(b, x, end - 1);
    }
}

/// A sentinel start with no later one before `end` is what the backward
/// search finds.
pub proof fn lemma_last_pat_is(b: Seq<u8>, x: u8, end: int, s: int)
    requires
        pat_at(b, s, x),
        s + 3 <= end,
        forall|j: int| s < j && j + 3 <= end ==> !pat_at(b, j, x),
    ensures
        last_pat_before(b, x, end) == s,
    decreases end,
{
    if end == s + 3 {
    } else {
        assert(!pat_at(b, end - 3, x));
        lemma_last_pat_is(b, x, end - 1, s);
    }
}

/// What `first_pat_from` finds is a sentinel start, and the least one.
pub proof fn lemma_first_pat_from(b: Seq<u8>, x: u8, start: int)
    ensures
        ({
            let f = first_pat_from(b, x, start);
            &&& f >= 0 ==> pat_at(b, f, x) && start <= f
            &&& forall|j: int| start <= j < f ==> !pat_at(b, j, x)
            &&& f < 0 && start >= 0 ==> forall|j: int| start <= j ==> !pat_at(b, j, x)
        }),
    decreases b.len() - start,
{
    if start < 0 || start + 3 > b.len() {
    } else if pat_at(b, start, x) {
    } else {
        lemma_first_pat_from(b, x, start + 1);
    }
}

/// Concatenation of two string slices, with its byte-level meaning.
fn concat_str(a: &str, c: &str) -> (r: String)
    ensures
        r@ == a@ + c@,
        encode_utf8(r@) == a.spec_bytes() + c.spec_bytes(),
{
    let mut out = a.to_owned();
    out.append(c);
    proof {
        lemma_encode_utf8_concat(a@, c@);
    }
    out
}

/// Where the cursor lands on a left arrow: one code point back, except that
/// stepping across a paste-end sentinel jumps to the last paste-start
/// sentinel before it, so a region is traversed as one hop.
pub open spec fn spec_cursor_left(b: Seq<u8>, cursor: int) -> int {
    let c = clamped(b, cursor);
    if c == 0 {
        0
    } else {
        let p = prev_boundary(b, c);
        if se_at(b, p) && last_pat_before(b, SS_BYTE, p) >= 0 {
            last_pat_before(b, SS_BYTE, p)
        } else {
            p
        }
    }
}

/// Move the cursor left by one code point, hopping over a whole paste
/// region when the character stepped across is the paste-end sentinel.
pub fn cursor_left(value: &str, cursor: usize) -> (r: usize)
    ensures
        r as int == spec_cursor_left(value.spec_bytes(), cursor as int),
{
    let ghost b = value.spec_bytes();
    let c = clamp_cursor(value, cursor);
    if c == 0 {
        return 0;
    }
    proof {
        lemma_clamped(b, cursor as int);
    }
    let p = clamp_cursor(value, c - 1);
    proof {
        lemma_clamped(b, c - 1);
    }
    let bs = value.as_bytes();
    let n = bs.len();
    if n - p >= 3 && bs[p] == 0xEF && bs[p + 1] == 0xBF && bs[p + 2] == SE_BYTE {
        proof {
            lemma_last_pat_before(b, SS_BYTE, p as int);
        }
        match scan_last_pat(bs, SS_BYTE, p) {
            Some(s) => {
                return s;
            },
            None => {
                return p;
            },
        }
    }
    p
}

/// The byte index one code point after boundary `c`.
pub open spec fn next_boundary(b: Seq<u8>, c: int) -> int {
    c + length_of_first_scalar(b.subrange(c, b.len() as int))
}

/// Where the cursor lands on a right arrow: one code point forward, except
/// that stepping onto a paste-start sentinel jumps past the first paste-end
/// sentinel after it.
pub open spec fn spec_cursor_right(b: Seq<u8>, cursor: int) -> int {
    let c = clamped(b, cursor);
    if c >= b.len() {
        b.len() as int
    } else if ss_at(b, c) && first_pat_from(b, SE_BYTE, c + 3) >= 0 {
        first_pat_from(b, SE_BYTE, c + 3) + 3
    } else {
        next_boundary(b, c)
    }
}

/// Move the cursor right by one code point, hopping over a whole paste
/// region when the cursor stands on the paste-start sentinel.
pub fn cursor_right(value: &str, cursor: usize) -> (r: usize)
    ensures
        r as int == spec_cursor_right(value.spec_bytes(), cursor as int),
{
    let ghost b = value.spec_bytes();
    let c = clamp_cursor(value, cursor);
    let bs = value.as_bytes();
    let n = bs.len();
    if c >= n {
        return n;
    }
    proof {
        lemma_clamped(b, cursor as int);
    }
    if n - c >= 3 && bs[c] == 0xEF && bs[c + 1] == 0xBF && bs[c + 2] == SS_BYTE {
        proof {
            lemma_first_pat_from(b, SE_BYTE, c + 3);
        }
        if let Some(e) = scan_first_pat(bs, SE_BYTE, c + 3) {
            return e + 3;
        }
    }
    let w = scalar_width_at(bs, c);
    c + w
}

/// The buffer and cursor after a backward deletion: a whole paste region
/// when the character before the cursor is the paste-end sentinel and a
/// matching start exists, otherwise exactly one code point (an image
/// sentinel is one code point); `None` when the cursor is at the start.
pub open spec fn spec_backspace(b: Seq<u8>, cursor: int) -> Option<(Seq<u8>, int)> {
    let c = clamped(b, cursor);
    if c == 0 {
        None
    } else {
        let p = prev_boundary(b, c);
        if se_at(b, p) && last_pat_before(b, SS_BYTE, p) >= 0 {
            let s = last_pat_before(b, SS_BYTE, p);
            Some((b.subrange(0, s) + b.subrange(c, b.len() as int), s))
        } else {
            Some((b.subrange(0, p) + b.subrange(c, b.len() as int), p))
        }
    }
}

/// Delete backward from the clamped cursor: a whole paste region in one
/// step when the cursor sits just after its end sentinel, otherwise one
/// code point.
pub fn handle_backspace(value: &str, cursor: usize) -> (r: Option<(String, usize)>)
    ensures
        ({
            let sbk = spec_backspace(value.spec_bytes(), cursor as int);
            &&& (r is None <==> sbk is None)
            &&& (r matches Some(p) ==> (sbk matches Some(q) && encode_utf8(p.0@) == q.0 && p.1
                as int == q.1))
        }),
{
    let ghost b = value.spec_bytes();
    let c = clamp_cursor(value, cursor);
    if c == 0 {
        return None;
    }
    proof {
        lemma_clamped(b, cursor as int);
    }
    let p = clamp_cursor(value, c - 1);
    proof {
        lemma_clamped(b, c - 1);
    }
    let bs = value.as_bytes();
    let n = bs.len();
    let start: usize;
    if n - p >= 3 && bs[p] == 0xEF && bs[p + 1] == 0xBF && bs[p + 2] == SE_BYTE {
        proof {
            lemma_last_pat_before(b, SS_BYTE, p as int);
        }
        match scan_last_pat(bs, SS_BYTE, p) {
            Some(s) => {
                proof {
                    lemma_pat_is_boundary(b, s as int);
                }
                start = s;
            },
            None => {
                start = p;
            },
        }
    } else {
        start = p;
    }
    let (a, _) = value.split_at(start);
    let (_, tail) = value.split_at(c);
    let out = concat_str(a, tail);
    proof {
        assert(a.spec_bytes() =~= b.subrange(0, start as int));
        assert(tail.spec_bytes() =~= b.subrange(c as int, b.len() as int));
    }
    Some((out, start))
}

/// Relies on String::push: appends exactly one character.
#[verifier::external_body]
pub(crate) fn push_char(s: &mut String, c: char)
    ensures
        final(s)@ == old(s)@ + seq![c],
{
    s.push(c);
}

/// Append the ellipsis character that marks a truncated text.
pub fn push_ellipsis(s: &mut String)
    ensures
        final(s)@ == old(s)@ + seq!['\u{2026}'],
{
    push_char(s, '\u{2026}');
}

/// Byte width of one character's UTF-8 encoding.
pub fn char_len_utf8(ch: char) -> (w: usize)
    ensures
        w == encode_scalar(ch as u32).len(),
        1 <= w <= 4,
{
    let u = ch as u32;
    if u < 0x80 {
        1
    } else if u < 0x800 {
        2
    } else if u < 0x10000 {
        3
    } else {
        4
    }
}

/// Splice one character into the buffer at the byte cursor and advance the
/// cursor past its encoding.
pub fn insert_char(input: &mut String, cursor: &mut usize, ch: char)
    requires
        *old(cursor) <= encode_utf8(old(input)@).len(),
        is_char_boundary(encode_utf8(old(input)@), *old(cursor) as int),
    ensures
        ({
            let b = encode_utf8(old(input)@);
            let c = *old(cursor) as int;
            &&& encode_utf8(final(input)@) == b.subrange(0, c) + encode_scalar(ch as u32)
                + b.subrange(c, b.len() as int)
            &&& *final(cursor) == c + encode_scalar(ch as u32).len()
        }),
{
    let ghost b = encode_utf8(input@);
    let c = *cursor;
    let s = input.as_str();
    proof {
        assert(s.spec_bytes() == b);
    }
    let (l, rgt) = s.split_at(c);
    let rlen = rgt.as_bytes().len();
    let mut out = l.to_owned();
    push_char(&mut out, ch);
    let ghost mid = out@;
    out.append(rgt);
    proof {
        lemma_encode_utf8_concat(l@, seq![ch]);
        lemma_encode_utf8_concat(mid, rgt@);
        assert(encode_utf8(seq![ch]) =~= encode_scalar(ch as u32) + encode_utf8(
            seq![ch].drop_first(),
        ));
        assert(seq![ch].drop_first() =~= Seq::<char>::empty());
        assert(encode_utf8(seq![ch]) =~= encode_scalar(ch as u32));
        assert(encode_utf8(out@) =~= b.subrange(0, c as int) + encode_scalar(ch as u32)
            + b.subrange(c as int, b.len() as int));
    }
    *input = out;
    let total = input.as_str().as_bytes().len();
    *cursor = total - rlen;
    proof {
        assert(total - rlen == c + encode_scalar(ch as u32).len());
    }
}

/// Delete exactly one code point before the cursor and return it; `None`
/// and no change when the cursor is at the start.
pub fn backspace(input: &mut String, cursor: &mut usize) -> (r: Option<char>)
    requires
        *old(cursor) <= encode_utf8(old(input)@).len(),
        is_char_boundary(encode_utf8(old(input)@), *old(cursor) as int),
    ensures
        ({
            let b = encode_utf8(old(input)@);
            let c = *old(cursor) as int;
            if c == 0 {
                r is None && final(input)@ == old(input)@ && *final(cursor) == 0
            } else {
                let p = prev_boundary(b, c);
                &&& encode_utf8(final(input)@) == b.subrange(0, p) + b.subrange(c, b.len() as int)
                &&& *final(cursor) == p
                &&& (r matches Some(ch) && ch == decode_utf8(b.subrange(p, b.len() as int))[0])
            }
        }),
{
    let ghost b = encode_utf8(input@);
    let c = *cursor;
    if c == 0 {
        return None;
    }
    let s = input.as_str();
    proof {
        assert(s.spec_bytes() == b);
    }
    let p = clamp_cursor(s, c - 1);
    proof {
        lemma_clamped(b, c - 1);
    }
    let (_, at_p) = s.split_at(p);
    let removed;
    proof {
        let sub = b.subrange(p as int, b.len() as int);
        assert(at_p.spec_bytes() == sub);
        assert(encode_utf8(at_p@) == sub);
        assert(decode_utf8(encode_utf8(at_p@)) == at_p@);
        if at_p@.len() == 0 {
            assert(encode_utf8(at_p@) =~= Seq::<u8>::empty());
            assert(sub.len() > 0);
            assert(false);
        }
        assert(at_p@[0] == decode_utf8(sub)[0]);
    }
    removed = first_char(at_p);
    let (a, _) = s.split_at(p);
    let (_, tail) = s.split_at(c);
    let out = concat_str(a, tail);
    proof {
        assert(a.spec_bytes() =~= b.subrange(0, p as int));
        assert(tail.spec_bytes() =~= b.subrange(c as int, b.len() as int));
    }
    *input = out;
    *cursor = p;
    removed
}

/// Step the cursor back over exactly one code point (no region hop).
pub fn move_left(input: &str, cursor: &mut usize)
    requires
        *old(cursor) <= input.spec_bytes().len(),
        is_char_boundary(input.spec_bytes(), *old(cursor) as int),
    ensures
        *final(cursor) == (if *old(cursor) == 0 {
            0int
        } else {
            prev_boundary(input.spec_bytes(), *old(cursor) as int)
        }),
{
    let c = *cursor;
    if c == 0 {
        return ;
    }
    proof {
        lemma_clamped(input.spec_bytes(), c - 1);
    }
    let p = clamp_cursor(input, c - 1);
    *cursor = p;
}

/// The three-byte UTF-8 encoding of the paste-start sentinel.
pub open spec fn ss_seq() -> Seq<u8> {
    seq![0xEFu8, 0xBFu8, SS_BYTE]
}

/// The three-byte UTF-8 encoding of the paste-end sentinel.
pub open spec fn se_seq() -> Seq<u8> {
    seq![0xEFu8, 0xBFu8, SE_BYTE]
}

/// The three-byte UTF-8 encoding of the image-marker sentinel.
pub open spec fn im_seq() -> Seq<u8> {
    seq![0xEFu8, 0xBFu8, IM_BYTE]
}

/// A one-character sequence encodes to that character's scalar encoding.
pub proof fn lemma_encode_singleton(c: char)
    ensures
        encode_utf8(seq![c]) == encode_scalar(c as u32),
{
    assert(seq![c].drop_first() =~= Seq::<char>::empty());
    assert(encode_utf8(Seq::<char>::empty()) =~= Seq::<u8>::empty());
    assert(seq![c][0] == c);
    assert(encode_utf8(seq![c]) =~= encode_scalar(c as u32) + encode_utf8(seq![c].drop_first()));
    assert(encode_scalar(c as u32) + Seq::<u8>::empty() =~= encode_scalar(c as u32));
}

/// The reserved sentinel characters encode to their three-byte patterns.
pub proof fn lemma_sentinel_encodings()
    ensures
        encode_scalar(crate::PASTE_START as u32) == ss_seq(),
        encode_scalar(crate::PASTE_END as u32) == se_seq(),
        encode_scalar(crate::IMAGE_MARKER as u32) == im_seq(),
{
    assert(crate::PASTE_START as u32 == 0xFFF0u32);
    assert(crate::PASTE_END as u32 == 0xFFF1u32);
    assert(crate::IMAGE_MARKER as u32 == 0xFFFCu32);
    assert((0xE0u8 | ((0xFFF0u32 >> 12) & 0x0Fu32) as u8) == 0xEFu8) by (bit_vector);
    assert((0x80u8 | ((0xFFF0u32 >> 6) & 0x3Fu32) as u8) == 0xBFu8) by (bit_vector);
    assert((0x80u8 | (0xFFF0u32 & 0x3Fu32) as u8) == 0xB0u8) by (bit_vector);
    assert((0xE0u8 | ((0xFFF1u32 >> 12) & 0x0Fu32) as u8) == 0xEFu8) by (bit_vector);
    assert((0x80u8 | ((0xFFF1u32 >> 6) & 0x3Fu32) as u8) == 0xBFu8) by (bit_vector);
    assert((0x80u8 | (0xFFF1u32 & 0x3Fu32) as u8) == 0xB1u8) by (bit_vector);
    assert((0xE0u8 | ((0xFFFCu32 >> 12) & 0x0Fu32) as u8) == 0xEFu8) by (bit_vector);
    assert((0x80u8 | ((0xFFFCu32 >> 6) & 0x3Fu32) as u8) == 0xBFu8) by (bit_vector);
    assert((0x80u8 | (0xFFFCu32 & 0x3Fu32) as u8) == 0xBCu8) by (bit_vector);
    assert(encode_scalar(0xFFF0u32) =~= ss_seq());
    assert(encode_scalar(0xFFF1u32) =~= se_seq());
    assert(encode_scalar(0xFFFCu32) =~= im_seq());
}

/// Number of newline bytes among the first `upto` bytes.
pub open spec fn count_nl(t: Seq<u8>, upto: int) -> int
    decreases upto,
{
    if upto <= 0 {
        0
    } else {
        count_nl(t, upto - 1) + if t[upto - 1] == 0x0Au8 {
            1int
        } else {
            0int
        }
    }
}

/// Number of lines in a text, counted as its line iterator does: a trailing
/// newline ends the last line rather than opening a new one, and an empty
/// text still counts as one line.
pub open spec fn spec_line_count(t: Seq<u8>) -> int {
    if t.len() == 0 {
        1
    } else if t.last() == 0x0Au8 {
        count_nl(t, t.len() as int)
    } else {
        count_nl(t, t.len() as int) + 1
    }
}

/// True when a paste is large enough to be wrapped in a sentinel region.
pub open spec fn is_large_paste(t: Seq<u8>) -> bool {
    spec_line_count(t) >= crate::PASTE_LINE_THRESHOLD || t.len() >= crate::PASTE_CHAR_THRESHOLD
}

/// There are never more newline bytes than bytes.
proof fn lemma_count_nl_le(t: Seq<u8>, upto: int)
    ensures
        0 <= count_nl(t, upto),
        upto >= 0 ==> count_nl(t, upto) <= upto,
    decreases upto,
{
    if upto > 0 {
        lemma_count_nl_le(t, upto - 1);
    }
}

/// Count the lines of a text, as `spec_line_count` defines them.
pub fn line_count(text: &str) -> (r: usize)
    ensures
        r == spec_line_count(text.spec_bytes()),
{
    let bs = text.as_bytes();
    let n = bs.len();
    if n == 0 {
        return 1;
    }
    let mut nl: usize = 0;
    let mut i: usize = 0;
    while i < n
        invariant
            i <= n == bs@.len(),
            nl == count_nl(bs@, i as int),
            nl <= i,
        decreases n - i,
    {
        if bs[i] == 0x0A {
            nl = nl + 1;
        }
        i = i + 1;
    }
    if bs[n - 1] == 0x0A {
        nl
    } else {
        proof {
            lemma_count_nl_le(bs@, n - 1);
        }
        nl + 1
    }
}

/// The buffer and cursor after a paste. A large paste is wrapped in
/// start/end sentinels, except that pasting directly after a paste-end
/// sentinel or directly before a paste-start sentinel extends that region
/// instead of nesting a new one. A small paste is spliced as raw text at
/// the cursor, even beside a region: below the threshold nothing is
/// wrapped, so there is no nesting for the extend rule to prevent.
pub open spec fn spec_insert_paste(b: Seq<u8>, cursor: int, t: Seq<u8>) -> (Seq<u8>, int) {
    let c = clamped(b, cursor);
    if !is_large_paste(t) {
        (b.subrange(0, c) + t + b.subrange(c, b.len() as int), c + t.len())
    } else if c >= 3 && se_at(b, c - 3) {
        (b.subrange(0, c - 3) + t + b.subrange(c - 3, b.len() as int), c + t.len())
    } else if ss_at(b, c) {
        (b.subrange(0, c + 3) + t + b.subrange(c + 3, b.len() as int), c + 3 + t.len())
    } else {
        (b.subrange(0, c) + ss_seq() + t + se_seq() + b.subrange(c, b.len() as int), c + t.len()
            + 6)
    }
}

/// Splice pasted text at the clamped cursor, wrapping it in a sentinel
/// region when it meets the size threshold and extending an adjacent region
/// rather than nesting one.
pub fn insert_paste(value: &str, cursor: usize, text: &str) -> (r: (String, usize))
    ensures
        ({
            let sp = spec_insert_paste(value.spec_bytes(), cursor as int, text.spec_bytes());
            encode_utf8(r.0@) == sp.0 && r.1 as int == sp.1
        }),
{
    let ghost b = value.spec_bytes();
    let ghost t = text.spec_bytes();
    let c = clamp_cursor(value, cursor);
    proof {
        lemma_clamped(b, cursor as int);
    }
    let bs = value.as_bytes();
    let n = bs.len();
    let tlen = text.as_bytes().len();
    let large = line_count(text) >= crate::PASTE_LINE_THRESHOLD || tlen
        >= crate::PASTE_CHAR_THRESHOLD;
    if !large {
        let (l, rgt) = value.split_at(c);
        let mid = concat_str(l, text);
        let out = concat_str(mid.as_str(), rgt);
        proof {
            assert(encode_utf8(out@) =~= b.subrange(0, c as int) + t + b.subrange(
                c as int,
                b.len() as int,
            ));
        }
        let total = out.as_str().as_bytes().len();
        let cur = total - (n - c);
        return (out, cur);
    }
    if c >= 3 && bs[c - 3] == 0xEF && bs[c - 2] == 0xBF && bs[c - 1] == SE_BYTE {
        proof {
            lemma_pat_is_boundary(b, c - 3);
        }
        let (l, rgt) = value.split_at(c - 3);
        let mid = concat_str(l, text);
        let out = concat_str(mid.as_str(), rgt);
        proof {
            assert(encode_utf8(out@) =~= b.subrange(0, c - 3) + t + b.subrange(
                c - 3,
                b.len() as int,
            ));
        }
        let total = out.as_str().as_bytes().len();
        let cur = total - (n - c);
        return (out, cur);
    }
    if n - c >= 3 && bs[c] == 0xEF && bs[c + 1] == 0xBF && bs[c + 2] == SS_BYTE {
        proof {
            if c + 3 < b.len() {
                let s = b.subrange(c as int, b.len() as int);
                assert(valid_utf8(s));
                assert(vstd::utf8::valid_first_scalar(s));
                assert(s[0] == 0xEFu8);
                assert(length_of_first_scalar(s) == 3);
                assert(b[c + 3] == s[3]);
                assert(is_char_boundary(s, 3)) by {
                    reveal_with_fuel(is_char_boundary, 2);
                }
                vstd::utf8::is_char_boundary_iff_not_is_continuation_byte(s, 3);
                vstd::utf8::is_char_boundary_iff_not_is_continuation_byte(b, c + 3);
            } else {
                assert(is_char_boundary(b, b.len() as int));
            }
        }
        let (l, rgt) = value.split_at(c + 3);
        let mid = concat_str(l, text);
        let out = concat_str(mid.as_str(), rgt);
        proof {
            assert(encode_utf8(out@) =~= b.subrange(0, c + 3) + t + b.subrange(
                c + 3,
                b.len() as int,
            ));
        }
        let total = out.as_str().as_bytes().len();
        let cur = total - (n - (c + 3));
        return (out, cur);
    }
    let (l, rgt) = value.split_at(c);
    let mut out = l.to_owned();
    push_char(&mut out, crate::PASTE_START);
    let ghost m1 = out@;
    out.append(text);
    let ghost m2 = out@;
    push_char(&mut out, crate::PASTE_END);
    let ghost m3 = out@;
    out.append(rgt);
    proof {
        lemma_sentinel_encodings();
        lemma_encode_utf8_concat(l@, seq![crate::PASTE_START]);
        lemma_encode_utf8_concat(m1, text@);
        lemma_encode_utf8_concat(m2, seq![crate::PASTE_END]);
        lemma_encode_utf8_concat(m3, rgt@);
        assert(encode_utf8(seq![crate::PASTE_START]) =~= encode_scalar(crate::PASTE_START as u32)
            + encode_utf8(seq![crate::PASTE_START].drop_first()));
        assert(seq![crate::PASTE_START].drop_first() =~= Seq::<char>::empty());
        assert(encode_utf8(seq![crate::PASTE_END]) =~= encode_scalar(crate::PASTE_END as u32)
            + encode_utf8(seq![crate::PASTE_END].drop_first()));
        assert(seq![crate::PASTE_END].drop_first() =~= Seq::<char>::empty());
        assert(encode_utf8(out@) =~= b.subrange(0, c as int) + ss_seq() + t + se_seq()
            + b.subrange(c as int, b.len() as int));
    }
    let total = out.as_str().as_bytes().len();
    let cur = total - (n - c);
    (out, cur)
}

/// The buffer's bytes with every sentinel removed and everything else,
/// including the text inside paste regions, kept in order.
pub open spec fn strip_spec(b: Seq<u8>) -> Seq<u8>
    decreases b.len(),
    when valid_utf8(b)
{
    if b.len() == 0 {
        Seq::empty()
    } else {
        let w = length_of_first_scalar(b);
        let rest = strip_spec(b.subrange(w, b.len() as int));
        if ss_at(b, 0) || se_at(b, 0) || im_at(b, 0) {
            rest
        } else {
            b.subrange(0, w) + rest
        }
    }
}

/// Relies on String::from_utf8: rebuilding a string from bytes that are
/// already a valid UTF-8 encoding returns them unchanged.
#[verifier::external_body]
fn string_from_utf8(v: Vec<u8>) -> (r: String)
    requires
        valid_utf8(v@),
    ensures
        encode_utf8(r@) == v@,
{
    String::from_utf8(v).unwrap_or_default()
}

/// The text handed to the protocol on submission: all sentinels stripped,
/// everything else kept. Never use the display projection for this.
pub fn strip_sentinels(value: &str) -> (r: String)
    ensures
        encode_utf8(r@) == strip_spec(value.spec_bytes()),
{
    let ghost b = value.spec_bytes();
    let bs = value.as_bytes();
    let n = bs.len();
    let mut out: Vec<u8> = Vec::new();
    let mut i: usize = 0;
    proof {
        assert(is_char_boundary(b, 0));
        assert(b.subrange(0, n as int) =~= b);
        assert(out@ + strip_spec(b.subrange(0, n as int)) =~= strip_spec(b));
    }
    while i < n
        invariant
            i <= n == b.len(),
            b == bs@,
            valid_utf8(b),
            is_char_boundary(b, i as int),
            valid_utf8(out@),
            out@ + strip_spec(b.subrange(i as int, n as int)) == strip_spec(b),
        decreases n - i,
    {
        let ghost s = b.subrange(i as int, n as int);
        proof {
            assert(valid_utf8(s));
            assert(s.len() > 0);
            assert(vstd::utf8::valid_first_scalar(s));
        }
        let w = scalar_width_at(bs, i);
        let ghost piece = b.subrange(i as int, i + w);
        proof {
            assert(piece =~= s.subrange(0, w as int));
            assert(vstd::utf8::valid_leading_and_continuation_bytes_first_codepoint(piece)) by {
                assert(forall|k: int| 0 <= k < w ==> piece[k] == s[k]);
            }
            assert(vstd::utf8::decode_first_codepoint(piece) == vstd::utf8::decode_first_codepoint(
                s,
            ));
            assert(vstd::utf8::length_of_first_codepoint(piece)
                == vstd::utf8::length_of_first_codepoint(s));
            assert(vstd::utf8::valid_first_scalar(piece));
            assert(vstd::utf8::pop_first_scalar(piece) =~= Seq::<u8>::empty());
            assert(valid_utf8(vstd::utf8::pop_first_scalar(piece)));
            assert(valid_utf8(piece));
            assert(s.subrange(w as int, s.len() as int) =~= b.subrange(i + w, n as int));
        }
        let is_sent = w == 3 && bs[i] == 0xEF && bs[i + 1] == 0xBF && (bs[i + 2] == SS_BYTE || bs[i
            + 2] == SE_BYTE || bs[i + 2] == IM_BYTE);
        proof {
            assert(is_sent == (ss_at(s, 0) || se_at(s, 0) || im_at(s, 0)));
        }
        let ghost out0 = out@;
        proof {
            assert(strip_spec(s) == if ss_at(s, 0) || se_at(s, 0) || im_at(s, 0) {
                strip_spec(b.subrange(i + w, n as int))
            } else {
                piece + strip_spec(b.subrange(i + w, n as int))
            });
        }
        if !is_sent {
            let mut k: usize = 0;
            proof {
                assert(out@ =~= out0 + b.subrange(i as int, i as int));
            }
            while k < w
                invariant
                    k <= w,
                    i + w <= n == b.len(),
                    b == bs@,
                    out@ == out0 + b.subrange(i as int, i + k),
                decreases w - k,
            {
                out.push(bs[i + k]);
                proof {
                    assert(out@ =~= out0 + b.subrange(i as int, i + k + 1));
                }
                k = k + 1;
            }
            proof {
                vstd::utf8::valid_utf8_concat(out0, piece);
                assert(out@ == out0 + piece);
                assert((out0 + piece) + strip_spec(b.subrange(i + w, n as int)) =~= out0 + (piece
                    + strip_spec(b.subrange(i + w, n as int))));
                assert(out@ + strip_spec(b.subrange(i + w, n as int)) =~= strip_spec(b));
            }
        } else {
            proof {
                assert(out@ + strip_spec(b.subrange(i + w, n as int)) =~= strip_spec(b));
            }
        }
        i = i + w;
    }
    proof {
        assert(b.subrange(n as int, n as int) =~= Seq::<u8>::empty());
        assert(strip_spec(b.subrange(n as int, n as int)) =~= Seq::<u8>::empty());
        assert(out@ =~= strip_spec(b));
    }
    string_from_utf8(out)
}

/// Step the cursor forward over exactly one code point (no region hop).
pub fn move_right(input: &str, cursor: &mut usize)
    requires
        *old(cursor) <= input.spec_bytes().len(),
        is_char_boundary(input.spec_bytes(), *old(cursor) as int),
    ensures
        *final(cursor) == (if *old(cursor) == input.spec_bytes().len() {
            *old(cursor) as int
        } else {
            next_boundary(input.spec_bytes(), *old(cursor) as int)
        }),
{
    let c = *cursor;
    let bs = input.as_bytes();
    let n = bs.len();
    if c >= n {
        return ;
    }
    let w = scalar_width_at(bs, c);
    *cursor = c + w;
}

} // verus!
