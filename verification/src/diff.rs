//! Unified-diff parsing for tool results, and small text formatting
//! helpers of the rendering pipeline.
use vstd::prelude::*;

verus! {

use vstd::string::StringSliceAdditionalSpecFns;
use vstd::string::StringExecFns;

/// How one diff line is rendered.
#[derive(Clone, Copy, Debug, PartialEq, Eq, Structural)]
pub enum DiffKind {
    /// A `---`/`+++` file header line.
    Header,
    /// An `@@` hunk header line.
    Hunk,
    /// An added line.
    Add,
    /// A removed line.
    Remove,
    /// A context line.
    Context,
}

/// One parsed diff line with its running line numbers.
#[derive(Debug)]
pub struct DiffLine {
    /// How the line is rendered.
    pub kind: DiffKind,
    /// The line's text, without its +/-/space prefix.
    pub content: String,
    /// Old-file line number, for removed and context lines.
    pub old_line: Option<usize>,
    /// New-file line number, for added and context lines.
    pub new_line: Option<usize>,
}

/// Number of entries with the given kind.
pub open spec fn count_kind(s: Seq<DiffLine>, k: DiffKind) -> int
    decreases s.len(),
{
    if s.len() == 0 {
        0
    } else {
        count_kind(s.drop_last(), k) + if s.last().kind == k {
            1int
        } else {
            0int
        }
    }
}

/// The numbering discipline of one parsed line: added lines carry only a
/// new-file number, removed lines only an old-file number, header and hunk
/// lines none.
pub open spec fn line_numbering_ok(l: DiffLine) -> bool {
    match l.kind {
        DiffKind::Header => l.old_line is None && l.new_line is None,
        DiffKind::Hunk => l.old_line is None && l.new_line is None,
        DiffKind::Add => l.old_line is None && l.new_line is Some,
        DiffKind::Remove => l.old_line is Some && l.new_line is None,
        DiffKind::Context => true,
    }
}

/// Index of the first newline at or after `i`.
pub open spec fn first_nl(b: Seq<u8>, i: int) -> int
    decreases b.len() - i,
{
    if i < 0 || i >= b.len() {
        b.len() as int
    } else if b[i] == 0x0Au8 {
        i
    } else {
        first_nl(b, i + 1)
    }
}

/// A line with one trailing carriage return removed.
pub open spec fn drop_cr(l: Seq<u8>) -> Seq<u8> {
    if l.len() > 0 && l.last() == 0x0Du8 {
        l.drop_last()
    } else {
        l
    }
}

/// The lines of a text: split at newlines, each line stripped of one
/// carriage return before the newline; a trailing newline does not open a
/// final empty line, and a final line without a newline keeps its bytes.
pub open spec fn spec_lines(b: Seq<u8>) -> Seq<Seq<u8>>
    decreases b.len(),
{
    if b.len() == 0 {
        Seq::empty()
    } else {
        let k0 = first_nl(b, 0);
        let k = if 0 <= k0 < b.len() {
            k0
        } else {
            b.len() as int
        };
        if k == b.len() {
            seq![b]
        } else {
            seq![drop_cr(b.subrange(0, k))] + spec_lines(b.subrange(k + 1, b.len() as int))
        }
    }
}

/// The first newline is where the newline-free prefix ends.
proof fn lemma_first_nl_is(s: Seq<u8>, i: int, k: int)
    requires
        0 <= i <= k <= s.len(),
        forall|j: int| i <= j < k ==> s[j] != 0x0Au8,
        k == s.len() || s[k] == 0x0Au8,
    ensures
        first_nl(s, i) == k,
    decreases k - i,
{
    if i < k {
        lemma_first_nl_is(s, i + 1, k);
    }
}

/// Split a text into its lines; a trailing carriage return is dropped from
/// each line, and a trailing newline does not open a last empty line.
pub fn split_lines(text: &str) -> (r: Vec<String>)
    ensures
        r@.map_values(|s: String| vstd::utf8::encode_utf8(s@)) == spec_lines(text.spec_bytes()),
{
    broadcast use vstd::utf8::group_utf8_lib;

    let ghost b = text.spec_bytes();
    let ghost lf = |s: String| vstd::utf8::encode_utf8(s@);
    let bs = text.as_bytes();
    let n = bs.len();
    let mut r: Vec<String> = Vec::new();
    if n == 0 {
        proof {
            assert(r@.map_values(lf) =~= spec_lines(b));
        }
        return r;
    }
    let mut start: usize = 0;
    let mut i: usize = 0;
    proof {
        assert(vstd::utf8::is_char_boundary(b, 0));
        assert(b.subrange(0, n as int) =~= b);
        assert(r@.map_values(lf) + spec_lines(b.subrange(0, n as int)) =~= spec_lines(b));
    }
    while i < n
        invariant
            start <= i <= n == b.len(),
            b == bs@,
            b == text.spec_bytes(),
            vstd::utf8::valid_utf8(b),
            vstd::utf8::is_char_boundary(b, start as int),
            lf == (|s: String| vstd::utf8::encode_utf8(s@)),
            r@.map_values(lf) + spec_lines(b.subrange(start as int, n as int)) == spec_lines(b),
            forall|j: int| start <= j < i ==> b[j] != 0x0Au8,
        decreases n - i,
    {
        if bs[i] == 0x0A {
            // line from start to i, dropping one trailing carriage return
            let stop = if i > start && bs[i - 1] == 0x0D {
                i - 1
            } else {
                i
            };
            proof {
                assert(vstd::utf8::is_char_boundary(b, stop as int)) by {
                    vstd::utf8::is_char_boundary_iff_not_is_continuation_byte(b, stop as int);
                }
                assert(vstd::utf8::is_char_boundary(b, i + 1)) by {
                    assert(vstd::utf8::is_char_boundary(b, i as int)) by {
                        vstd::utf8::is_char_boundary_iff_not_is_continuation_byte(b, i as int);
                    }
                    crate::editor::lemma_char_width_facts(b, i as int);
                    assert(b.subrange(i as int, b.len() as int)[0] == b[i as int]);
                    assert(vstd::utf8::length_of_first_scalar(
                        b.subrange(i as int, b.len() as int),
                    ) == 1);
                }
            }
            let (_, rest) = text.split_at(start);
            let ghost rb = b.subrange(start as int, b.len() as int);
            proof {
                assert(vstd::utf8::valid_utf8(rb)) by {
                    vstd::utf8::valid_utf8_split(b, start as int);
                }
                assert(vstd::utf8::is_char_boundary(rb, stop - start)) by {
                    if (stop as int) < b.len() {
                        assert(rb[stop - start] == b[stop as int]);
                        vstd::utf8::is_char_boundary_iff_not_is_continuation_byte(
                            b,
                            stop as int,
                        );
                        vstd::utf8::is_char_boundary_iff_not_is_continuation_byte(
                            rb,
                            stop - start,
                        );
                    }
                }
            }
            let (line, _) = rest.split_at(stop - start);
            let ghost pre = r@;
            r.push(line.to_owned());
            proof {
                let suf = b.subrange(start as int, n as int);
                lemma_first_nl_is(suf, 0, i - start);
                assert(spec_lines(suf) == seq![drop_cr(suf.subrange(0, i - start))] + spec_lines(
                    suf.subrange(i - start + 1, suf.len() as int),
                ));
                assert(suf.subrange(0, i - start) =~= b.subrange(start as int, i as int));
                assert(suf.subrange(i - start + 1, suf.len() as int) =~= b.subrange(
                    i + 1,
                    n as int,
                ));
                assert(drop_cr(b.subrange(start as int, i as int)) =~= b.subrange(
                    start as int,
                    stop as int,
                )) by {
                    if stop < i {
                        assert(b.subrange(start as int, i as int).last() == 0x0Du8);
                        assert(b.subrange(start as int, i as int).drop_last() =~= b.subrange(
                            start as int,
                            stop as int,
                        ));
                    } else {
                        assert(b.subrange(start as int, i as int).len() == 0 || b.subrange(
                            start as int,
                            i as int,
                        ).last() != 0x0Du8);
                    }
                }
                assert(lf(r@.last()) =~= b.subrange(start as int, stop as int)) by {
                    assert(r@.last()@ == line@);
                }
                assert(r@.map_values(lf) =~= pre.map_values(lf).push(lf(r@.last())));
                assert(pre.map_values(lf).push(b.subrange(start as int, stop as int))
                    + spec_lines(b.subrange(i + 1, n as int)) =~= pre.map_values(lf) + (seq![
                    b.subrange(start as int, stop as int)] + spec_lines(
                    b.subrange(i + 1, n as int),
                )));
                assert(r@.map_values(lf) + spec_lines(b.subrange(i + 1, n as int)) =~= spec_lines(
                    b,
                ));
            }
            start = i + 1;
        }
        i = i + 1;
    }
    if start < n {
        let (_, last) = text.split_at(start);
        let ghost pre = r@;
        r.push(last.to_owned());
        proof {
            let suf = b.subrange(start as int, n as int);
            lemma_first_nl_is(suf, 0, n - start);
            assert(spec_lines(suf) == seq![suf]);
            assert(lf(r@.last()) =~= suf) by {
                assert(r@.last()@ == last@);
            }
            assert(r@.map_values(lf) =~= pre.map_values(lf).push(lf(r@.last())));
            assert(pre.map_values(lf).push(suf) =~= pre.map_values(lf) + seq![suf]);
            assert(r@.map_values(lf) =~= spec_lines(b));
        }
    } else {
        proof {
            assert(b.subrange(start as int, n as int).len() == 0);
            assert(spec_lines(b.subrange(start as int, n as int)) =~= Seq::<Seq<u8>>::empty());
            assert(r@.map_values(lf) =~= spec_lines(b));
        }
    }
    r
}

/// A `--- ` or `+++ ` file header line.
pub open spec fn is_header_line(l: Seq<u8>) -> bool {
    l.len() >= 4 && ((l[0] == 45 && l[1] == 45 && l[2] == 45 && l[3] == 32) || (l[0] == 43 && l[1]
        == 43 && l[2] == 43 && l[3] == 32))
}

/// An `@@` hunk header line (that is not a file header).
pub open spec fn is_hunk_line(l: Seq<u8>) -> bool {
    !is_header_line(l) && l.len() >= 2 && l[0] == 64 && l[1] == 64
}

/// A counter bumped without leaving the machine range.
pub open spec fn bump_counter(v: int) -> int {
    if v >= usize::MAX {
        v
    } else {
        v + 1
    }
}

/// The old/new running counters before line `k` is processed: hunk headers
/// reset them to their carried values, added lines advance the new
/// counter, removed lines the old one, context lines both.
pub open spec fn counters_at(ls: Seq<Seq<u8>>, k: int) -> (int, int)
    decreases k,
{
    if k <= 0 {
        (0, 0)
    } else {
        let prev = counters_at(ls, k - 1);
        let l = ls[k - 1];
        if is_header_line(l) {
            prev
        } else if is_hunk_line(l) {
            hunk_starts(l)
        } else if l.len() >= 1 && l[0] == 43 {
            (prev.0, bump_counter(prev.1))
        } else if l.len() >= 1 && l[0] == 45 {
            (bump_counter(prev.0), prev.1)
        } else if l.len() >= 1 && l[0] == 32 {
            (bump_counter(prev.0), bump_counter(prev.1))
        } else {
            prev
        }
    }
}

/// What one parsed entry must be, given its input line and the counters
/// before it: its kind and content follow the line's first bytes, and the
/// line numbers it carries are the counters.
pub open spec fn diff_entry_ok(l: Seq<u8>, before: (int, int), d: DiffLine) -> bool {
    let content = vstd::utf8::encode_utf8(d.content@);
    if is_header_line(l) {
        d.kind == DiffKind::Header && content == l && d.old_line is None && d.new_line is None
    } else if is_hunk_line(l) {
        d.kind == DiffKind::Hunk && content == l && d.old_line is None && d.new_line is None
    } else if l.len() >= 1 && l[0] == 43 {
        &&& d.kind == DiffKind::Add
        &&& content == l.subrange(1, l.len() as int)
        &&& d.old_line is None
        &&& (d.new_line matches Some(v) && v as int == before.1)
    } else if l.len() >= 1 && l[0] == 45 {
        &&& d.kind == DiffKind::Remove
        &&& content == l.subrange(1, l.len() as int)
        &&& (d.old_line matches Some(v) && v as int == before.0)
        &&& d.new_line is None
    } else if l.len() >= 1 && l[0] == 32 {
        &&& d.kind == DiffKind::Context
        &&& content == l.subrange(1, l.len() as int)
        &&& (d.old_line matches Some(v) && v as int == before.0)
        &&& (d.new_line matches Some(w) && w as int == before.1)
    } else {
        d.kind == DiffKind::Context && content == l && d.old_line is None && d.new_line is None
    }
}

/// Parse a unified diff into tagged lines with independent old/new running
/// counters, counting additions and deletions. Hunk headers reset the
/// counters to the numbers they carry.
pub fn parse_diff(diff: &str) -> (r: (Vec<DiffLine>, usize, usize))
    ensures
        ({
            let ls = spec_lines(diff.spec_bytes());
            &&& r.0@.len() == ls.len()
            &&& forall|k: int|
                0 <= k < ls.len() ==> diff_entry_ok(ls[k], counters_at(ls, k), #[trigger] r.0@[k])
        }),
        r.1 as int == count_kind(r.0@, DiffKind::Add),
        r.2 as int == count_kind(r.0@, DiffKind::Remove),
        forall|k: int| 0 <= k < r.0@.len() ==> line_numbering_ok(#[trigger] r.0@[k]),
{
    let ghost ls = spec_lines(diff.spec_bytes());
    let ghost lf = |s: String| vstd::utf8::encode_utf8(s@);
    let lines = split_lines(diff);
    proof {
        assert(lines@.map_values(lf) == ls);
    }
    let mut out: Vec<DiffLine> = Vec::new();
    let mut additions: usize = 0;
    let mut deletions: usize = 0;
    let mut old_line: usize = 0;
    let mut new_line: usize = 0;
    let n = lines.len();
    let mut i: usize = 0;
    while i < n
        invariant
            i <= n == lines@.len(),
            ls == spec_lines(diff.spec_bytes()),
            lf == (|s: String| vstd::utf8::encode_utf8(s@)),
            lines@.map_values(lf) == ls,
            out@.len() == i,
            (old_line as int, new_line as int) == counters_at(ls, i as int),
            forall|k: int|
                0 <= k < i ==> diff_entry_ok(ls[k], counters_at(ls, k), #[trigger] out@[k]),
            additions as int == count_kind(out@, DiffKind::Add),
            deletions as int == count_kind(out@, DiffKind::Remove),
            additions <= i,
            deletions <= i,
            forall|k: int| 0 <= k < out@.len() ==> line_numbering_ok(#[trigger] out@[k]),
        decreases n - i,
    {
        let ghost pre = out@;
        let line = &lines[i];
        let lb = line.as_str().as_bytes();
        let m = lb.len();
        proof {
            assert(ls[i as int] == lf(lines@[i as int]));
            assert(lb@ == ls[i as int]);
        }
        let is_header = (m >= 4 && lb[0] == 45 && lb[1] == 45 && lb[2] == 45 && lb[3] == 32) || (m
            >= 4 && lb[0] == 43 && lb[1] == 43 && lb[2] == 43 && lb[3] == 32);
        let is_hunk = !is_header && m >= 2 && lb[0] == 64 && lb[1] == 64;
        if is_header {
            out.push(
                DiffLine {
                    kind: DiffKind::Header,
                    content: line.clone(),
                    old_line: None,
                    new_line: None,
                },
            );
        } else if is_hunk {
            let (o, nw) = parse_hunk_header(line.as_str());
            old_line = o;
            new_line = nw;
            out.push(
                DiffLine {
                    kind: DiffKind::Hunk,
                    content: line.clone(),
                    old_line: None,
                    new_line: None,
                },
            );
        } else if m >= 1 && lb[0] == 43 {
            additions = additions + 1;
            out.push(
                DiffLine {
                    kind: DiffKind::Add,
                    content: strip_first_byte(line.as_str()),
                    old_line: None,
                    new_line: Some(new_line),
                },
            );
            if new_line < usize::MAX {
                new_line = new_line + 1;
            }
        } else if m >= 1 && lb[0] == 45 {
            deletions = deletions + 1;
            out.push(
                DiffLine {
                    kind: DiffKind::Remove,
                    content: strip_first_byte(line.as_str()),
                    old_line: Some(old_line),
                    new_line: None,
                },
            );
            if old_line < usize::MAX {
                old_line = old_line + 1;
            }
        } else if m >= 1 && lb[0] == 32 {
            out.push(
                DiffLine {
                    kind: DiffKind::Context,
                    content: strip_first_byte(line.as_str()),
                    old_line: Some(old_line),
                    new_line: Some(new_line),
                },
            );
            if old_line < usize::MAX {
                old_line = old_line + 1;
            }
            if new_line < usize::MAX {
                new_line = new_line + 1;
            }
        } else {
            out.push(
                DiffLine {
                    kind: DiffKind::Context,
                    content: line.clone(),
                    old_line: None,
                    new_line: None,
                },
            );
        }
        proof {
            assert(out@.drop_last() =~= pre);
            assert(out@.last() == out@[i as int]);
            let l = ls[i as int];
            if m >= 1 && (lb@[0] == 43 || lb@[0] == 45 || lb@[0] == 32) && !(is_header_line(l)
                || is_hunk_line(l)) {
                assert(lb@.subrange(1, lb@.len() as int) == l.subrange(1, l.len() as int));
            }
            assert(diff_entry_ok(ls[i as int], counters_at(ls, i as int), out@[i as int]));
            assert(counters_at(ls, i + 1) == (old_line as int, new_line as int));
        }
        i = i + 1;
    }
    (out, additions, deletions)
}

/// The text after its first byte, which must be a one-byte character.
fn strip_first_byte(line: &str) -> (r: String)
    requires
        line.spec_bytes().len() >= 1,
        line.spec_bytes()[0] < 128,
    ensures
        vstd::utf8::encode_utf8(r@) == line.spec_bytes().subrange(
            1,
            line.spec_bytes().len() as int,
        ),
{
    broadcast use vstd::utf8::group_utf8_lib;

    let ghost b = line.spec_bytes();
    proof {
        assert(vstd::utf8::is_char_boundary(b, 0));
        crate::editor::lemma_char_width_facts(b, 0);
        assert(vstd::utf8::length_of_first_scalar(b.subrange(0, b.len() as int)) == 1) by {
            assert(b.subrange(0, b.len() as int) =~= b);
            assert(vstd::utf8::valid_first_scalar(b));
        }
        assert(vstd::utf8::is_char_boundary(b, 1));
    }
    let (_, rest) = line.split_at(1);
    rest.to_owned()
}

/// Index of the first occurrence of a byte at or after `i`.
pub open spec fn find_byte_from(b: Seq<u8>, x: u8, i: int) -> int
    decreases b.len() - i,
{
    if i < 0 || i >= b.len() {
        b.len() as int
    } else if b[i] == x {
        i
    } else {
        find_byte_from(b, x, i + 1)
    }
}

/// Index just past the run of decimal digits starting at `i`.
pub open spec fn digits_end(b: Seq<u8>, i: int) -> int
    decreases b.len() - i,
{
    if i < 0 || i >= b.len() {
        i
    } else if 48 <= b[i] <= 57 {
        digits_end(b, i + 1)
    } else {
        i
    }
}

/// Value of the digit run `b[i..j)`.
pub open spec fn num_val(b: Seq<u8>, i: int, j: int) -> int
    decreases j - i,
{
    if j <= i {
        0
    } else {
        num_val(b, i, j - 1) * 10 + (b[j - 1] - 48)
    }
}

/// The number a hunk header carries at `start`: its digit run's value, or
/// zero when the value does not fit the machine.
pub open spec fn hunk_num(b: Seq<u8>, start: int) -> int {
    let v = num_val(b, start, digits_end(b, start));
    if v > usize::MAX {
        0
    } else {
        v
    }
}

/// The old/new starting line numbers of an `@@` hunk header: the digit
/// runs after the first `-` and after the following `+`.
pub open spec fn hunk_starts(b: Seq<u8>) -> (int, int) {
    let m = find_byte_from(b, 45, 0);
    let s1 = if m < b.len() {
        m + 1
    } else {
        m
    };
    let e1 = digits_end(b, s1);
    let p = find_byte_from(b, 43, e1);
    let s2 = if p < b.len() {
        p + 1
    } else {
        p
    };
    (hunk_num(b, s1), hunk_num(b, s2))
}

/// Read the starting line numbers out of an `@@` hunk header: the digits
/// after the `-` and after the `+`; zero when a number is missing.
fn parse_hunk_header(line: &str) -> (r: (usize, usize))
    ensures
        (r.0 as int, r.1 as int) == hunk_starts(line.spec_bytes()),
{
    let ghost b = line.spec_bytes();
    let bs = line.as_bytes();
    let n = bs.len();
    let mut i: usize = 0;
    // digits after the first '-'
    while i < n && bs[i] != 45
        invariant
            i <= n == bs@.len(),
            b == bs@,
            find_byte_from(b, 45, 0) == find_byte_from(b, 45, i as int),
        decreases n - i,
    {
        i = i + 1;
    }
    i = if i < n {
        i + 1
    } else {
        i
    };
    let ghost s1 = i as int;
    let o = read_digits(bs, &mut i);
    let ghost e1 = i as int;
    // digits after the next '+'
    while i < n && bs[i] != 43
        invariant
            i <= n == bs@.len(),
            b == bs@,
            find_byte_from(b, 43, e1) == find_byte_from(b, 43, i as int),
        decreases n - i,
    {
        i = i + 1;
    }
    i = if i < n {
        i + 1
    } else {
        i
    };
    let nw = read_digits(bs, &mut i);
    (o, nw)
}

/// Read a digit run, advancing past it; a value that does not fit the
/// machine reads as zero.
fn read_digits(bs: &[u8], i: &mut usize) -> (r: usize)
    requires
        *old(i) <= bs@.len(),
    ensures
        *final(i) == digits_end(bs@, *old(i) as int),
        *old(i) <= *final(i) <= bs@.len(),
        r as int == hunk_num(bs@, *old(i) as int),
{
    let n = bs.len();
    let ghost s = *i as int;
    let mut acc: usize = 0;
    let mut of = false;
    let ghost b = bs@;
    while *i < n && 48 <= bs[*i] && bs[*i] <= 57
        invariant
            s <= *i as int <= n == b.len(),
            b == bs@,
            digits_end(b, s) == digits_end(b, *i as int),
            !of ==> acc as int == num_val(b, s, *i as int),
            of ==> num_val(b, s, *i as int) > usize::MAX,
            num_val(b, s, *i as int) >= 0,
        decreases n - *i,
    {
        let d = (bs[*i] - 48) as usize;
        let ghost v = num_val(b, s, *i as int);
        proof {
            assert(num_val(b, s, *i + 1) == v * 10 + d);
        }
        if !of && acc <= (usize::MAX - d) / 10 {
            proof {
                assert(acc * 10 + d <= usize::MAX) by (nonlinear_arith)
                    requires
                        acc <= (usize::MAX - d) / 10,
                        d <= 9,
                ;
            }
            acc = acc * 10 + d;
        } else {
            proof {
                if !of {
                    assert(acc * 10 + d > usize::MAX) by (nonlinear_arith)
                        requires
                            acc > (usize::MAX - d) / 10,
                            d <= 9,
                    ;
                } else {
                    assert(v * 10 + d > usize::MAX) by (nonlinear_arith)
                        requires
                            v > usize::MAX,
                            d >= 0,
                    ;
                }
            }
            of = true;
        }
        *i = *i + 1;
    }
    if of {
        0
    } else {
        acc
    }
}

/// The icon for each tool name, falling back to a generic marker.
pub open spec fn spec_tool_icon(name: Seq<char>) -> Seq<char> {
    if name == "read"@ {
        "[R]"@
    } else if name == "write"@ {
        "[W]"@
    } else if name == "edit"@ {
        "[E]"@
    } else if name == "multi_edit"@ {
        "[E]"@
    } else if name == "bash"@ {
        "[$]"@
    } else if name == "grep"@ {
        "[?]"@
    } else if name == "glob"@ {
        "[G]"@
    } else if name == "ls"@ {
        "[L]"@
    } else if name == "task"@ {
        "[T]"@
    } else if name == "websearch"@ {
        "[S]"@
    } else if name == "webfetch"@ {
        "[F]"@
    } else if name == "apply_patch"@ {
        "[P]"@
    } else if name == "question"@ {
        "[Q]"@
    } else if name == "todoread"@ {
        "[>]"@
    } else if name == "todowrite"@ {
        "[>]"@
    } else if name == "codesearch"@ {
        "[C]"@
    } else {
        "[*]"@
    }
}

/// The icon shown beside a tool call.
pub fn tool_icon(name: &str) -> (r: &'static str)
    ensures
        r@ == spec_tool_icon(name@),
{
    if crate::strutil::str_eq(name, "read") {
        "[R]"
    } else if crate::strutil::str_eq(name, "write") {
        "[W]"
    } else if crate::strutil::str_eq(name, "edit") {
        "[E]"
    } else if crate::strutil::str_eq(name, "multi_edit") {
        "[E]"
    } else if crate::strutil::str_eq(name, "bash") {
        "[$]"
    } else if crate::strutil::str_eq(name, "grep") {
        "[?]"
    } else if crate::strutil::str_eq(name, "glob") {
        "[G]"
    } else if crate::strutil::str_eq(name, "ls") {
        "[L]"
    } else if crate::strutil::str_eq(name, "task") {
        "[T]"
    } else if crate::strutil::str_eq(name, "websearch") {
        "[S]"
    } else if crate::strutil::str_eq(name, "webfetch") {
        "[F]"
    } else if crate::strutil::str_eq(name, "apply_patch") {
        "[P]"
    } else if crate::strutil::str_eq(name, "question") {
        "[Q]"
    } else if crate::strutil::str_eq(name, "todoread") {
        "[>]"
    } else if crate::strutil::str_eq(name, "todowrite") {
        "[>]"
    } else if crate::strutil::str_eq(name, "codesearch") {
        "[C]"
    } else {
        "[*]"
    }
}

/// Shorten a text to at most `max_len` bytes, appending an ellipsis when it
/// was cut; a text that already fits is returned unchanged. The cut lands
/// on the code-point boundary at or before one byte short of the limit.
pub fn truncate_text(text: &str, max_len: usize) -> (r: String)
    ensures
        text.spec_bytes().len() <= max_len ==> r@ == text@,
        text.spec_bytes().len() > max_len ==> ({
            let b = text.spec_bytes();
            let cut = crate::editor::clamped(b, if max_len > 0 {
                max_len - 1
            } else {
                0int
            });
            vstd::utf8::encode_utf8(r@) == b.subrange(0, cut) + vstd::utf8::encode_scalar(
                '\u{2026}' as u32,
            )
        }),
{
    broadcast use vstd::utf8::group_utf8_lib;

    let bs = text.as_bytes();
    if bs.len() <= max_len {
        return text.to_owned();
    }
    let ghost b = text.spec_bytes();
    let cut = if max_len > 0 {
        crate::editor::clamp_cursor(text, max_len - 1)
    } else {
        0
    };
    proof {
        crate::editor::lemma_clamped(b, if max_len > 0 {
            max_len - 1
        } else {
            0
        });
    }
    let (head, _) = text.split_at(cut);
    let mut out = head.to_owned();
    crate::editor::push_ellipsis(&mut out);
    proof {
        crate::editor::lemma_encode_utf8_concat(head@, seq!['\u{2026}']);
        crate::editor::lemma_encode_singleton('\u{2026}');
    }
    out
}

/// Thousands-separated decimal rendering of a counter.
pub fn format_number(value: u64) -> (r: String)
    ensures
        r@ == crate::strutil::grouped(crate::strutil::decimal_of(value as int)),
{
    let ds = crate::strutil::decimal_digits(value);
    crate::strutil::group_digits(&ds)
}

} // verus!
