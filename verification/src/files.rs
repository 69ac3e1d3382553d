//! The file-mention picker's pure logic: filtering the directory index by
//! a case-insensitive path substring and reading the query text after the
//! mention character.
use vstd::prelude::*;

verus! {

use vstd::string::StringSliceAdditionalSpecFns;
use vstd::string::StringExecFns;
use crate::state::FileResult;
use crate::strutil::spec_contains_fold;

impl Clone for FileResult {
    /// A clone carries the same field values.
    fn clone(&self) -> (r: Self)
        ensures
            r == *self,
    {
        FileResult { relative_path: self.relative_path.clone(), is_dir: self.is_dir }
    }
}

/// The documented file match rule: an empty query matches everything,
/// otherwise the query must be a case-insensitive substring of the path.
pub open spec fn file_matches(f: FileResult, q: Seq<u8>) -> bool {
    q.len() == 0 || spec_contains_fold(vstd::utf8::encode_utf8(f.relative_path@), q)
}

/// The first `max` matching entries, in index order.
pub open spec fn spec_filter_files(ix: Seq<FileResult>, q: Seq<u8>, max: int) -> Seq<FileResult>
    decreases ix.len(),
{
    if ix.len() == 0 || max <= 0 {
        Seq::empty()
    } else if file_matches(ix[0], q) {
        seq![ix[0]] + spec_filter_files(ix.drop_first(), q, max - 1)
    } else {
        spec_filter_files(ix.drop_first(), q, max)
    }
}

/// Keep the first `max_results` index entries whose path contains the
/// query, ignoring ASCII case; an empty query keeps entries unfiltered.
pub fn filter_files(index: &[FileResult], query: &str, max_results: usize) -> (r: Vec<
    FileResult,
>)
    ensures
        r@ == spec_filter_files(index@, query.spec_bytes(), max_results as int),
{
    let ghost q = query.spec_bytes();
    let mut r: Vec<FileResult> = Vec::new();
    let n = index.len();
    let qn = query.as_bytes().len();
    let mut i: usize = 0;
    proof {
        assert(index@.skip(0) =~= index@);
    }
    while i < n
        invariant
            i <= n == index@.len(),
            q == query.spec_bytes(),
            qn == q.len(),
            r@.len() <= max_results,
            r@ + spec_filter_files(index@.skip(i as int), q, max_results - r@.len())
                == spec_filter_files(index@, q, max_results as int),
        decreases n - i,
    {
        if r.len() >= max_results {
            proof {
                assert(spec_filter_files(index@.skip(i as int), q, 0) =~= Seq::<
                    FileResult,
                >::empty());
                assert(r@ + Seq::<FileResult>::empty() =~= r@);
            }
            return r;
        }
        let item = &index[i];
        let hit = qn == 0 || crate::strutil::contains_fold_win(
            item.relative_path.as_str(),
            query,
            0,
            qn,
        );
        proof {
            assert(q.subrange(0, qn as int) =~= q);
            assert(hit == file_matches(index@[i as int], q));
            let suf = index@.skip(i as int);
            assert(suf[0] == index@[i as int]);
            assert(suf.drop_first() =~= index@.skip(i + 1));
        }
        let ghost pre = r@;
        if hit {
            r.push(item.clone());
            proof {
                assert(r@ =~= pre.push(index@[i as int]));
                assert(pre.push(index@[i as int]) + spec_filter_files(
                    index@.skip(i + 1),
                    q,
                    max_results - pre.len() - 1,
                ) =~= pre + (seq![index@[i as int]] + spec_filter_files(
                    index@.skip(i + 1),
                    q,
                    max_results - pre.len() - 1,
                )));
            }
        }
        i = i + 1;
    }
    proof {
        assert(index@.skip(n as int).len() == 0);
        assert(spec_filter_files(index@.skip(n as int), q, max_results - r@.len()) =~= Seq::<
            FileResult,
        >::empty());
        assert(r@ + Seq::<FileResult>::empty() =~= r@);
    }
    r
}

/// Start index of the last mention character before byte `end`, or -1.
pub open spec fn last_mention(b: Seq<u8>, end: int) -> int
    decreases end,
{
    if end <= 0 {
        -1
    } else if b[end - 1] == 64u8 {
        end - 1
    } else {
        last_mention(b, end - 1)
    }
}

/// The picker query typed after the last mention character before the
/// cursor: the text between that character and the cursor, or empty when
/// no mention character precedes the cursor.
pub fn file_query_from_input(input: &str, cursor: usize) -> (r: String)
    requires
        vstd::utf8::is_char_boundary(
            input.spec_bytes(),
            if cursor as int <= input.spec_bytes().len() {
                cursor as int
            } else {
                input.spec_bytes().len() as int
            },
        ),
    ensures
        ({
            let b = input.spec_bytes();
            let c = if cursor as int <= b.len() {
                cursor as int
            } else {
                b.len() as int
            };
            let j = last_mention(b, c);
            if j < 0 {
                r@ == Seq::<char>::empty()
            } else {
                vstd::utf8::encode_utf8(r@) == b.subrange(j + 1, c)
            }
        }),
{
    broadcast use vstd::utf8::group_utf8_lib;

    let ghost b = input.spec_bytes();
    let bs = input.as_bytes();
    let n = bs.len();
    let c = if cursor <= n {
        cursor
    } else {
        n
    };
    let mut e = c;
    while e > 0 && bs[e - 1] != 64
        invariant
            e <= c <= n == b.len(),
            b == bs@,
            b == input.spec_bytes(),
            last_mention(b, c as int) == last_mention(b, e as int),
        decreases e,
    {
        e = e - 1;
    }
    if e == 0 {
        proof {
            assert(last_mention(b, 0) == -1);
        }
        return String::new();
    }
    let j = e - 1;
    proof {
        assert(last_mention(b, e as int) == j);
        assert(vstd::utf8::is_char_boundary(b, j as int)) by {
            vstd::utf8::is_char_boundary_iff_not_is_continuation_byte(b, j as int);
        }
        crate::editor::lemma_char_width_facts(b, j as int);
        assert(b.subrange(j as int, b.len() as int)[0] == b[j as int]);
        assert(vstd::utf8::length_of_first_scalar(b.subrange(j as int, b.len() as int)) == 1);
        assert(vstd::utf8::is_char_boundary(b, j + 1));
    }
    let (_, rest) = input.split_at(j + 1);
    let ghost rb = b.subrange(j + 1, b.len() as int);
    proof {
        assert(rest.spec_bytes() == rb);
        assert(vstd::utf8::is_char_boundary(rb, c - (j + 1))) by {
            if (c as int) < b.len() {
                assert(rb[c - (j + 1)] == b[c as int]);
                vstd::utf8::is_char_boundary_iff_not_is_continuation_byte(b, c as int);
                vstd::utf8::is_char_boundary_iff_not_is_continuation_byte(rb, c - (j + 1));
            }
        }
    }
    let (q, _) = rest.split_at(c - (j + 1));
    let out = q.to_owned();
    proof {
        assert(q.spec_bytes() =~= rb.subrange(0, c - (j + 1)));
        assert(rb.subrange(0, c - (j + 1)) =~= b.subrange(j + 1, c as int));
        assert(vstd::utf8::encode_utf8(out@) == q.spec_bytes());
    }
    out
}

} // verus!
