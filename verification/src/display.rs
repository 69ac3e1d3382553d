//! The display projection of the input line: paste regions collapse to a
//! one-line summary, image sentinels become a placeholder token, and the
//! caret's position is tracked into the transformed string. The projection
//! is read-only and never used for protocol submission.
use vstd::prelude::*;

verus! {

broadcast use vstd::utf8::group_utf8_lib;

use vstd::string::StringSliceAdditionalSpecFns;
use vstd::string::StrSliceExecFns;
use vstd::string::StringExecFns;
use vstd::utf8::is_char_boundary;
use vstd::utf8::valid_utf8;
use vstd::utf8::encode_utf8;
use vstd::utf8::decode_utf8;
use crate::buffer::pattern_free;
use crate::buffer::regions_wf;
use crate::editor::pat_at;
use crate::editor::ss_at;
use crate::editor::se_at;
use crate::editor::im_at;
use crate::editor::clamped;
use crate::editor::SS_BYTE;
use crate::editor::SE_BYTE;
use crate::editor::IM_BYTE;

/// A small paste region's inline rendering: its characters, newlines shown
/// as spaces.
pub open spec fn inline_chars(sb: Seq<u8>) -> Seq<char> {
    decode_utf8(sb).map_values(
        |c: char|
            if c == '\n' {
                ' '
            } else {
                c
            },
    )
}

/// A large paste region's one-line summary, naming its line count.
pub open spec fn summary_chars(sb: Seq<u8>) -> Seq<char> {
    "[Pasted ~"@ + crate::strutil::decimal_of(crate::editor::spec_line_count(sb)) + " lines]"@
}

/// Whether the byte at `i` suppresses the space after a summary token: a
/// space or another region or marker follows there.
pub open spec fn spec_suppress(b: Seq<u8>, i: int, allow_se: bool) -> bool {
    i < b.len() && (b[i] == 32 || ss_at(b, i) || im_at(b, i) || (allow_se && se_at(b, i)))
}

/// The space put before a summary token, unless the display is empty or
/// already ends in a space.
pub open spec fn lead_chars(last: Option<char>) -> Seq<char> {
    if last is Some && last != Some(' ') {
        seq![' ']
    } else {
        Seq::empty()
    }
}

/// The space put after a summary token, unless the buffer ends there or the
/// next character suppresses it.
pub open spec fn trail_chars(b: Seq<u8>, i: int, allow_se: bool) -> Seq<char> {
    if i < b.len() && !spec_suppress(b, i, allow_se) {
        seq![' ']
    } else {
        Seq::empty()
    }
}

/// The next walk position, clamped to the end of the buffer.
pub open spec fn step_to(b: Seq<u8>, i: int) -> int {
    if i <= b.len() {
        i
    } else {
        b.len() as int
    }
}

/// The display's last character after appending a piece.
pub open spec fn last_of(piece: Seq<char>, last: Option<char>) -> Option<char> {
    if piece.len() == 0 {
        last
    } else {
        Some(piece.last())
    }
}

/// The display projection of the buffer bytes from position `i` on, given
/// the last character already shown: a terminated region becomes its
/// summary or inline text, an image sentinel the placeholder token, a
/// stray sentinel nothing, and any other character itself.
pub open spec fn display_go(b: Seq<u8>, i: int, last: Option<char>) -> Seq<char>
    decreases b.len() - i,
{
    if i < 0 || i >= b.len() {
        Seq::empty()
    } else if ss_at(b, i) {
        let e = crate::editor::first_pat_from(b, SE_BYTE, i + 3);
        if i + 3 <= e && e + 3 <= b.len() {
            let seg = b.subrange(i + 3, e);
            let piece = if crate::editor::is_large_paste(seg) {
                lead_chars(last) + summary_chars(seg) + trail_chars(b, e + 3, false)
            } else {
                inline_chars(seg)
            };
            piece + display_go(b, e + 3, last_of(piece, last))
        } else {
            display_go(b, step_to(b, i + 3), last)
        }
    } else if se_at(b, i) {
        display_go(b, step_to(b, i + 3), last)
    } else if im_at(b, i) {
        let piece = lead_chars(last) + "[Image]"@ + trail_chars(b, i + 3, true);
        piece + display_go(b, step_to(b, i + 3), last_of(piece, last))
    } else {
        let w0 = vstd::utf8::length_of_first_scalar(b.subrange(i, b.len() as int));
        let w = if 1 <= w0 <= 4 {
            w0
        } else {
            1int
        };
        let piece = seq![decode_utf8(b.subrange(i, b.len() as int))[0]];
        piece + display_go(b, step_to(b, i + w), Some(piece[0]))
    }
}

/// The whole display projection of a buffer.
pub open spec fn display_of(b: Seq<u8>) -> Seq<char> {
    display_go(b, 0, None)
}

/// The state the projection keeps while walking the buffer.
struct Proj {
    /// The display string built so far.
    display: String,
    /// Last character of the display, for spacing decisions.
    last_char: Option<char>,
}

impl Proj {
    /// The display tracks its recorded last character.
    spec fn wf(self) -> bool {
        self.last_char == (if self.display@.len() == 0 {
            None::<char>
        } else {
            Some(self.display@.last())
        })
    }

    /// Append one character; a non-sentinel character keeps the display
    /// free of sentinels.
    fn push(&mut self, ch: char)
        requires
            old(self).wf(),
        ensures
            final(self).wf(),
            final(self).display@ == old(self).display@ + seq![ch],
            (pattern_free(encode_utf8(old(self).display@)) && ch != crate::PASTE_START && ch
                != crate::PASTE_END && ch != crate::IMAGE_MARKER) ==> pattern_free(
                encode_utf8(final(self).display@),
            ),
    {
        let ghost d0 = self.display@;
        crate::editor::push_char(&mut self.display, ch);
        self.last_char = Some(ch);
        proof {
            if pattern_free(encode_utf8(d0)) && ch != crate::PASTE_START && ch
                != crate::PASTE_END && ch != crate::IMAGE_MARKER {
                crate::buffer::lemma_char_pattern_free(ch);
                crate::editor::lemma_encode_singleton(ch);
                crate::editor::lemma_encode_utf8_concat(d0, seq![ch]);
                crate::buffer::lemma_pattern_free_concat(
                    encode_utf8(d0),
                    encode_utf8(seq![ch]),
                );
            }
        }
    }

    /// Append a short ASCII token, keeping the display sentinel-free.
    fn push_token(&mut self, tok: &str)
        requires
            old(self).wf(),
            vstd::utf8::is_ascii_chars(tok@),
            tok@.len() > 0,
        ensures
            final(self).wf(),
            final(self).display@ == old(self).display@ + tok@,
            pattern_free(encode_utf8(old(self).display@)) ==> pattern_free(
                encode_utf8(final(self).display@),
            ),
    {
        let ghost d0 = self.display@;
        self.display.append(tok);
        let lc = tok.as_bytes();
        let last = lc[lc.len() - 1];
        proof {
            vstd::utf8::is_ascii_chars_encode_utf8(tok@);
            assert(last == tok@.last() as u8);
            assert(tok@.last() as u32 <= 0x7f);
        }
        self.last_char = Some(last as char);
        proof {
            assert(self.display@.last() == tok@.last());
            assert((last as char) as u32 == tok@.last() as u32);
            assert(last as char == tok@.last());
            if pattern_free(encode_utf8(d0)) {
                crate::buffer::lemma_ascii_pattern_free(tok@);
                crate::editor::lemma_encode_utf8_concat(d0, tok@);
                crate::buffer::lemma_pattern_free_concat(encode_utf8(d0), encode_utf8(tok@));
            }
        }
    }

    /// Whether a summary token needs a leading space before it.
    fn needs_lead_space(&self) -> (r: bool)
        ensures
            r == (self.last_char is Some && self.last_char != Some(' ')),
    {
        match self.last_char {
            Some(c) => c != ' ',
            None => false,
        }
    }

    /// Inline a small paste's text, mapping newlines to spaces. A paste
    /// without sentinels keeps the display sentinel-free.
    fn push_inline(&mut self, seg: &str)
        requires
            old(self).wf(),
        ensures
            final(self).wf(),
            old(self).display@.len() <= final(self).display@.len(),
            final(self).display@ == old(self).display@ + inline_chars(seg.spec_bytes()),
            (pattern_free(encode_utf8(old(self).display@)) && pattern_free(seg.spec_bytes()))
                ==> pattern_free(encode_utf8(final(self).display@)),
    {
        let ghost segb = seg.spec_bytes();
        let ghost d0 = self.display@;
        let sb = seg.as_bytes();
        let sn = sb.len();
        let mut j: usize = 0;
        proof {
            assert(is_char_boundary(segb, 0));
            assert(decode_utf8(segb.subrange(0, 0)) =~= Seq::<char>::empty());
            assert(self.display@ =~= d0 + inline_chars(segb.subrange(0, 0)));
        }
        while j < sn
            invariant
                j <= sn == segb.len(),
                segb == sb@,
                segb == seg.spec_bytes(),
                valid_utf8(segb),
                is_char_boundary(segb, j as int),
                self.wf(),
                d0.len() <= self.display@.len(),
                self.display@ == d0 + inline_chars(segb.subrange(0, j as int)),
                (pattern_free(encode_utf8(d0)) && pattern_free(segb)) ==> pattern_free(
                    encode_utf8(self.display@),
                ),
            decreases sn - j,
        {
            let (_, tail) = seg.split_at(j);
            let ghost tb = segb.subrange(j as int, segb.len() as int);
            proof {
                assert(tail.spec_bytes() == tb);
                assert(encode_utf8(tail@) == tb);
                assert(decode_utf8(encode_utf8(tail@)) == tail@);
                if tail@.len() == 0 {
                    assert(encode_utf8(tail@) =~= Seq::<u8>::empty());
                    assert(false);
                }
            }
            let ch = match crate::editor::first_char(tail) {
                Some(c2) => c2,
                None => {
                    proof {
                        assert(false);
                    }
                    ' '
                },
            };
            let out_ch = if ch == '\n' {
                ' '
            } else {
                ch
            };
            proof {
                assert(ch == decode_utf8(tb)[0]);
                if pattern_free(segb) {
                    assert(!pat_at(segb, j as int, SS_BYTE) && !pat_at(segb, j as int, SE_BYTE)
                        && !pat_at(segb, j as int, IM_BYTE));
                    crate::buffer::lemma_nonpattern_char(segb, j as int);
                }
            }
            self.push(out_ch);
            let w = crate::editor::scalar_width_at(sb, j);
            proof {
                // the decoded prefix grows by exactly this character
                let pref = segb.subrange(0, j + w);
                assert(valid_utf8(pref)) by {
                    vstd::utf8::valid_utf8_split(segb, j + w);
                }
                assert(is_char_boundary(pref, j as int)) by {
                    if j > 0 {
                        assert(pref[j as int] == segb[j as int]);
                        vstd::utf8::is_char_boundary_iff_not_is_continuation_byte(
                            segb,
                            j as int,
                        );
                        vstd::utf8::is_char_boundary_iff_not_is_continuation_byte(
                            pref,
                            j as int,
                        );
                    }
                }
                vstd::utf8::decode_utf8_split(pref, j as int);
                assert(pref.subrange(0, j as int) =~= segb.subrange(0, j as int));
                let piece = pref.subrange(j as int, j + w);
                assert(piece =~= tb.subrange(0, w as int));
                assert(vstd::utf8::valid_first_scalar(tb));
                assert(vstd::utf8::valid_leading_and_continuation_bytes_first_codepoint(
                    piece,
                )) by {
                    assert(forall|q: int| 0 <= q < w ==> piece[q] == tb[q]);
                }
                assert(vstd::utf8::decode_first_codepoint(piece)
                    == vstd::utf8::decode_first_codepoint(tb));
                assert(vstd::utf8::length_of_first_codepoint(piece)
                    == vstd::utf8::length_of_first_codepoint(tb));
                assert(vstd::utf8::valid_first_scalar(piece));
                assert(vstd::utf8::pop_first_scalar(piece) =~= Seq::<u8>::empty());
                assert(decode_utf8(piece) =~= seq![ch]) by {
                    assert(decode_utf8(vstd::utf8::pop_first_scalar(piece)) =~= Seq::<
                        char,
                    >::empty());
                    assert(decode_utf8(tb)[0] == vstd::utf8::decode_first_scalar(tb) as char);
                }
                assert(decode_utf8(segb.subrange(0, j + w)) =~= decode_utf8(
                    segb.subrange(0, j as int),
                ).push(ch));
                assert(inline_chars(segb.subrange(0, j + w)) =~= inline_chars(
                    segb.subrange(0, j as int),
                ).push(out_ch));
                assert(self.display@ =~= d0 + inline_chars(segb.subrange(0, j + w)));
            }
            j = j + w;
        }
        proof {
            assert(segb.subrange(0, sn as int) =~= segb);
        }
    }
}

/// Whether the character whose encoding starts at `i` asks for no space
/// after a summary token: a space or another region or marker follows.
fn next_suppresses_space(bs: &[u8], i: usize, allow_se: bool) -> (r: bool)
    requires
        i <= bs@.len(),
    ensures
        r == (i < bs@.len() && (bs@[i as int] == 32 || ss_at(bs@, i as int) || im_at(
            bs@,
            i as int,
        ) || (allow_se && se_at(bs@, i as int)))),
{
    let n = bs.len();
    if i >= n {
        return false;
    }
    bs[i] == 32 || (n - i >= 3 && bs[i] == 0xEF && bs[i + 1] == 0xBF && (bs[i + 2] == SS_BYTE
        || bs[i + 2] == IM_BYTE || (allow_se && bs[i + 2] == SE_BYTE)))
}

/// Map the logical buffer to the human-readable display string and track
/// the caret into it: each large paste region becomes a bracketed summary
/// naming its line count, a small one is inlined with newlines as spaces,
/// each image sentinel becomes a placeholder token, and stray sentinels
/// are dropped. On a buffer without sentinels the display is the buffer
/// itself and the caret index counts the characters before the cursor.
#[verifier::rlimit(100)]
#[verifier::spinoff_prover]
pub fn compute_display_input_with_cursor(value: &str, cursor: usize) -> (r: (String, usize))
    ensures
        r.0@ == display_of(value.spec_bytes()),
        r.1 <= r.0@.len(),
        regions_wf(value.spec_bytes()) ==> pattern_free(encode_utf8(r.0@)),
        pattern_free(value.spec_bytes()) ==> ({
            &&& r.0@ == value@
            &&& r.1 as int == decode_utf8(
                value.spec_bytes().subrange(0, clamped(value.spec_bytes(), cursor as int)),
            ).len()
        }),
{
    let ghost b = value.spec_bytes();
    let c = crate::editor::clamp_cursor(value, cursor);
    proof {
        crate::editor::lemma_clamped(b, cursor as int);
    }
    let bs = value.as_bytes();
    let n = bs.len();
    let mut p = Proj { display: String::new(), last_char: None };
    let mut cursor_disp: usize = 0;
    let mut cursor_set = false;
    let mut i: usize = 0;
    proof {
        assert(p.display@ =~= Seq::<char>::empty());
        assert(encode_utf8(p.display@) =~= Seq::<u8>::empty());
        assert(forall|q: int, x: u8| !(#[trigger] pat_at(Seq::<u8>::empty(), q, x)));
        assert(is_char_boundary(b, 0));
        assert(p.display@ =~= decode_utf8(b.subrange(0, 0)));
        assert(p.display@ + display_go(b, 0, p.last_char) =~= display_of(b));
    }
    while i < n
        invariant
            i <= n == b.len(),
            b == bs@,
            b == value.spec_bytes(),
            valid_utf8(b),
            is_char_boundary(b, i as int),
            c as int == clamped(b, cursor as int),
            c <= n,
            p.wf(),
            p.display@ + display_go(b, i as int, p.last_char) == display_of(b),
            cursor_set ==> cursor_disp as int <= p.display@.len(),
            !cursor_set ==> c >= i,
            regions_wf(b) ==> pattern_free(encode_utf8(p.display@)),
            pattern_free(b) ==> p.display@ == decode_utf8(b.subrange(0, i as int)),
            pattern_free(b) && cursor_set ==> cursor_disp as int == decode_utf8(
                b.subrange(0, c as int),
            ).len(),
        decreases n - i,
    {
        if !cursor_set && i >= c {
            cursor_disp = p.display.as_str().unicode_len();
            cursor_set = true;
        }
        let ghost d0 = p.display@;
        let ghost last0 = p.last_char;
        let is_ss = n - i >= 3 && bs[i] == 0xEF && bs[i + 1] == 0xBF && bs[i + 2] == SS_BYTE;
        let is_se = !is_ss && n - i >= 3 && bs[i] == 0xEF && bs[i + 1] == 0xBF && bs[i + 2]
            == SE_BYTE;
        let is_im = !is_ss && !is_se && n - i >= 3 && bs[i] == 0xEF && bs[i + 1] == 0xBF && bs[i
            + 2] == IM_BYTE;
        if is_ss {
            proof {
                assert(!pattern_free(b)) by {
                    assert(pat_at(b, i as int, SS_BYTE));
                }
                crate::editor::lemma_char_width_facts(b, i as int);
                assert(b.subrange(i as int, n as int)[0] == b[i as int]);
                assert(vstd::utf8::length_of_first_scalar(b.subrange(i as int, n as int)) == 3);
            }
            match crate::editor::scan_first_pat(bs, SE_BYTE, i + 3) {
                Some(e) => {
                    proof {
                        crate::editor::lemma_first_pat_from(b, SE_BYTE, i + 3);
                        assert(se_at(b, e as int));
                        assert(is_char_boundary(b, e as int)) by {
                            vstd::utf8::is_char_boundary_iff_not_is_continuation_byte(
                                b,
                                e as int,
                            );
                        }
                        crate::editor::lemma_char_width_facts(b, e as int);
                        assert(b.subrange(e as int, n as int)[0] == b[e as int]);
                        assert(vstd::utf8::length_of_first_scalar(
                            b.subrange(e as int, n as int),
                        ) == 3);
                        assert(is_char_boundary(b, i + 3));
                        assert(is_char_boundary(b, e + 3));
                    }
                    // the region's text
                    let (_, rest) = value.split_at(i + 3);
                    let ghost rb = b.subrange(i + 3, n as int);
                    proof {
                        assert(rest.spec_bytes() == rb);
                        assert(is_char_boundary(rb, e - (i + 3))) by {
                            assert(rb[e - (i + 3)] == b[e as int]);
                            vstd::utf8::is_char_boundary_iff_not_is_continuation_byte(
                                b,
                                e as int,
                            );
                            vstd::utf8::is_char_boundary_iff_not_is_continuation_byte(
                                rb,
                                e - (i + 3),
                            );
                        }
                    }
                    let (seg, _) = rest.split_at(e - (i + 3));
                    let ghost segb = b.subrange(i + 3, e as int);
                    proof {
                        assert(seg.spec_bytes() =~= rb.subrange(0, e - (i + 3)));
                        assert(rb.subrange(0, e - (i + 3)) =~= segb);
                        if regions_wf(b) {
                            crate::buffer::lemma_region_interior_clean(b, i as int, e as int);
                        }
                    }
                    let seg_len = seg.as_bytes().len();
                    let lc = crate::editor::line_count(seg);
                    let large = lc >= crate::PASTE_LINE_THRESHOLD || seg_len
                        >= crate::PASTE_CHAR_THRESHOLD;
                    if large {
                        if p.needs_lead_space() {
                            p.push(' ');
                        }
                        let mut sum = crate::strutil::owned_str("[Pasted ~");
                        let ds = crate::strutil::decimal_digits(lc as u64);
                        let mut k: usize = 0;
                        while k < ds.len()
                            invariant
                                k <= ds@.len(),
                                ds@ == crate::strutil::decimal_of(lc as int),
                                sum@ == "[Pasted ~"@ + ds@.subrange(0, k as int),
                            decreases ds@.len() - k,
                        {
                            crate::editor::push_char(&mut sum, ds[k]);
                            proof {
                                assert(sum@ =~= "[Pasted ~"@ + ds@.subrange(0, k + 1));
                            }
                            k = k + 1;
                        }
                        sum.append(" lines]");
                        proof {
                            assert(ds@.subrange(0, ds@.len() as int) =~= ds@);
                            reveal_strlit("[Pasted ~");
                            reveal_strlit(" lines]");
                            assert(vstd::utf8::is_ascii_chars(sum@)) by {
                                crate::strutil::lemma_decimal_ascii(lc as int);
                                assert(vstd::utf8::is_ascii_chars("[Pasted ~"@));
                                assert(vstd::utf8::is_ascii_chars(" lines]"@));
                                assert(sum@ =~= ("[Pasted ~"@ + ds@) + " lines]"@);
                            }
                            assert(sum@.len() > 0);
                        }
                        p.push_token(sum.as_str());
                        if next_suppresses_space(bs, e + 3, false) {
                        } else if e + 3 < n {
                            p.push(' ');
                        }
                    } else {
                        p.push_inline(seg);
                    }
                    proof {
                        let piece = if crate::editor::is_large_paste(segb) {
                            lead_chars(last0) + summary_chars(segb) + trail_chars(
                                b,
                                e + 3,
                                false,
                            )
                        } else {
                            inline_chars(segb)
                        };
                        assert(large == crate::editor::is_large_paste(segb));
                        if large {
                            reveal_strlit(" lines]");
                            assert(summary_chars(segb).len() > 0 && summary_chars(segb).last()
                                == ']') by {
                                reveal_strlit(" lines]");
                            }
                            assert(p.display@ =~= d0 + piece);
                        } else {
                            assert(p.display@ =~= d0 + piece);
                        }
                        assert(p.last_char == last_of(piece, last0)) by {
                            if piece.len() == 0 {
                                assert(p.display@ =~= d0);
                            } else {
                                assert(p.display@.len() > 0);
                                assert(p.display@.last() == piece.last());
                            }
                        }
                        assert(display_go(b, i as int, last0) == piece + display_go(
                            b,
                            e + 3,
                            last_of(piece, last0),
                        )) by {
                            assert(ss_at(b, i as int));
                            assert(crate::editor::first_pat_from(b, SE_BYTE, i + 3) == e);
                            assert(step_to(b, e + 3) == e + 3);
                        }
                        assert(p.display@ + display_go(b, e + 3, p.last_char) =~= display_of(
                            b,
                        ));
                    }
                    if !cursor_set && c > i && c <= e + 3 {
                        cursor_disp = p.display.as_str().unicode_len();
                        cursor_set = true;
                    }
                    i = e + 3;
                },
                None => {
                    // an unterminated start sentinel is dropped
                    proof {
                        if !cursor_set {
                            crate::editor::lemma_clamped(b, cursor as int);
                            assert(c >= i + 3);
                        }
                        assert(crate::editor::first_pat_from(b, SE_BYTE, i + 3) < 0);
                        assert(display_go(b, i as int, last0) == display_go(b, i + 3, last0))
                            by {
                            assert(ss_at(b, i as int));
                            assert(step_to(b, i + 3) == i + 3);
                        }
                    }
                    i = i + 3;
                },
            }
        } else if is_se {
            // a stray end sentinel is dropped
            proof {
                assert(!pattern_free(b)) by {
                    assert(pat_at(b, i as int, SE_BYTE));
                }
                crate::editor::lemma_char_width_facts(b, i as int);
                assert(b.subrange(i as int, n as int)[0] == b[i as int]);
                assert(vstd::utf8::length_of_first_scalar(b.subrange(i as int, n as int)) == 3);
                if !cursor_set {
                    crate::editor::lemma_clamped(b, cursor as int);
                    assert(c >= i + 3);
                }
                assert(display_go(b, i as int, last0) == display_go(b, i + 3, last0)) by {
                    assert(se_at(b, i as int));
                    assert(!ss_at(b, i as int));
                    assert(step_to(b, i + 3) == i + 3);
                }
            }
            i = i + 3;
        } else if is_im {
            proof {
                assert(!pattern_free(b)) by {
                    assert(pat_at(b, i as int, IM_BYTE));
                }
                crate::editor::lemma_char_width_facts(b, i as int);
                assert(b.subrange(i as int, n as int)[0] == b[i as int]);
                assert(vstd::utf8::length_of_first_scalar(b.subrange(i as int, n as int)) == 3);
            }
            if p.needs_lead_space() {
                p.push(' ');
            }
            proof {
                reveal_strlit("[Image]");
                assert(vstd::utf8::is_ascii_chars("[Image]"@));
                assert("[Image]"@.len() > 0);
            }
            p.push_token("[Image]");
            if next_suppresses_space(bs, i + 3, true) {
            } else if i + 3 < n {
                p.push(' ');
            }
            proof {
                if !cursor_set {
                    crate::editor::lemma_clamped(b, cursor as int);
                    assert(c >= i + 3);
                }
                let piece = lead_chars(last0) + "[Image]"@ + trail_chars(b, i + 3, true);
                reveal_strlit("[Image]");
                assert("[Image]"@.len() > 0 && "[Image]"@.last() == ']');
                assert(p.display@ =~= d0 + piece);
                assert(p.last_char == last_of(piece, last0)) by {
                    assert(piece.len() > 0);
                    assert(p.display@.last() == piece.last());
                }
                assert(display_go(b, i as int, last0) == piece + display_go(
                    b,
                    i + 3,
                    last_of(piece, last0),
                )) by {
                    assert(im_at(b, i as int));
                    assert(!ss_at(b, i as int) && !se_at(b, i as int));
                    assert(step_to(b, i + 3) == i + 3);
                }
                assert(p.display@ + display_go(b, i + 3, p.last_char) =~= display_of(b));
            }
            i = i + 3;
        } else {
            // an ordinary character is copied through
            let (_, rest) = value.split_at(i);
            let ghost tb = b.subrange(i as int, n as int);
            proof {
                assert(rest.spec_bytes() == tb);
                assert(encode_utf8(rest@) == tb);
                assert(decode_utf8(encode_utf8(rest@)) == rest@);
                if rest@.len() == 0 {
                    assert(encode_utf8(rest@) =~= Seq::<u8>::empty());
                    assert(false);
                }
            }
            let ch = match crate::editor::first_char(rest) {
                Some(c2) => c2,
                None => {
                    proof {
                        assert(false);
                    }
                    ' '
                },
            };
            proof {
                assert(ch == decode_utf8(tb)[0]);
                if regions_wf(b) || pattern_free(b) {
                    assert(!pat_at(b, i as int, SS_BYTE) && !pat_at(b, i as int, SE_BYTE)
                        && !pat_at(b, i as int, IM_BYTE));
                    crate::buffer::lemma_nonpattern_char(b, i as int);
                }
            }
            p.push(ch);
            let w = crate::editor::scalar_width_at(bs, i);
            proof {
                let piece = seq![ch];
                assert(p.display@ =~= d0 + piece);
                assert(display_go(b, i as int, last0) == piece + display_go(
                    b,
                    i + w,
                    Some(ch),
                )) by {
                    assert(!ss_at(b, i as int) && !se_at(b, i as int) && !im_at(b, i as int));
                    assert(vstd::utf8::length_of_first_scalar(tb) == w);
                    assert(1 <= w <= 4);
                    assert(step_to(b, i + w) == i + w);
                }
                assert(p.last_char == last_of(piece, last0));
                assert(p.display@ + display_go(b, i + w, p.last_char) =~= display_of(b));
                if pattern_free(b) {
                    // the copied character extends the decoded prefix
                    let pref = b.subrange(0, i + w);
                    assert(valid_utf8(pref)) by {
                        vstd::utf8::valid_utf8_split(b, i + w);
                    }
                    assert(is_char_boundary(pref, i as int)) by {
                        if i > 0 {
                            assert(pref[i as int] == b[i as int]);
                            vstd::utf8::is_char_boundary_iff_not_is_continuation_byte(
                                b,
                                i as int,
                            );
                            vstd::utf8::is_char_boundary_iff_not_is_continuation_byte(
                                pref,
                                i as int,
                            );
                        }
                    }
                    vstd::utf8::decode_utf8_split(pref, i as int);
                    assert(pref.subrange(0, i as int) =~= b.subrange(0, i as int));
                    let piece = pref.subrange(i as int, i + w);
                    assert(piece =~= tb.subrange(0, w as int));
                    assert(vstd::utf8::valid_first_scalar(tb));
                    assert(vstd::utf8::valid_leading_and_continuation_bytes_first_codepoint(
                        piece,
                    )) by {
                        assert(forall|q: int| 0 <= q < w ==> piece[q] == tb[q]);
                    }
                    assert(vstd::utf8::decode_first_codepoint(piece)
                        == vstd::utf8::decode_first_codepoint(tb));
                    assert(vstd::utf8::length_of_first_codepoint(piece)
                        == vstd::utf8::length_of_first_codepoint(tb));
                    assert(vstd::utf8::valid_first_scalar(piece));
                    assert(vstd::utf8::pop_first_scalar(piece) =~= Seq::<u8>::empty());
                    assert(decode_utf8(piece) =~= seq![ch]) by {
                        assert(decode_utf8(vstd::utf8::pop_first_scalar(piece)) =~= Seq::<
                            char,
                        >::empty());
                        assert(decode_utf8(tb)[0] == vstd::utf8::decode_first_scalar(
                            tb,
                        ) as char);
                    }
                    assert(p.display@ =~= decode_utf8(b.subrange(0, i + w)));
                }
                if !cursor_set {
                    crate::editor::lemma_clamped(b, cursor as int);
                    crate::editor::lemma_char_width_facts(b, i as int);
                    assert(c >= i + w);
                }
            }
            i = i + w;
        }
    }
    if !cursor_set {
        cursor_disp = p.display.as_str().unicode_len();
    }
    proof {
        assert(display_go(b, n as int, p.last_char) =~= Seq::<char>::empty());
        assert(p.display@ =~= display_of(b));
        if pattern_free(b) {
            assert(b.subrange(0, n as int) =~= b);
            assert(p.display@ == decode_utf8(b));
            assert(decode_utf8(encode_utf8(value@)) == value@);
            if !cursor_set {
                assert(c == n);
                assert(b.subrange(0, c as int) =~= b);
            }
        }
    }
    (p.display, cursor_disp)
}

/// The caret's row and column after laying out the first `upto` display
/// characters at the given width: newlines and full rows wrap.
pub open spec fn spec_cursor_pos(cs: Seq<char>, width: int, upto: int) -> (int, int)
    decreases upto,
{
    if upto <= 0 {
        (0, 0)
    } else {
        let prev = spec_cursor_pos(cs, width, upto - 1);
        let ch = cs[upto - 1];
        if ch == '\n' {
            (prev.0 + 1, 0)
        } else if prev.1 >= width {
            (prev.0 + 1, 1)
        } else {
            (prev.0, prev.1 + 1)
        }
    }
}

/// Place the caret in the wrapped display: the row and column reached
/// after the characters before the caret index, wrapping on newlines and
/// at the width.
pub fn compute_cursor_position(display: &str, cursor_index: usize, width: usize) -> (r: (
    usize,
    usize,
))
    ensures
        (r.0 as int, r.1 as int) == spec_cursor_pos(
            display@,
            width as int,
            if cursor_index <= display@.len() {
                cursor_index as int
            } else {
                display@.len() as int
            },
        ),
{
    let ghost b = display.spec_bytes();
    let ghost cs = display@;
    let bs = display.as_bytes();
    let n = bs.len();
    let mut row: usize = 0;
    let mut col: usize = 0;
    let mut k: usize = 0;
    let mut j: usize = 0;
    proof {
        assert(is_char_boundary(b, 0));
        assert(decode_utf8(b.subrange(0, 0)) =~= Seq::<char>::empty());
        assert(decode_utf8(encode_utf8(cs)) == cs);
    }
    while j < n && k < cursor_index
        invariant
            j <= n == b.len(),
            b == bs@,
            b == display.spec_bytes(),
            cs == display@,
            valid_utf8(b),
            is_char_boundary(b, j as int),
            k as int == decode_utf8(b.subrange(0, j as int)).len(),
            k <= cs.len(),
            k <= cursor_index,
            (row as int, col as int) == spec_cursor_pos(cs, width as int, k as int),
            row <= k,
            col <= k,
        decreases n - j,
    {
        let (_, rest) = display.split_at(j);
        let ghost tb = b.subrange(j as int, n as int);
        proof {
            assert(rest.spec_bytes() == tb);
            assert(encode_utf8(rest@) == tb);
            assert(decode_utf8(encode_utf8(rest@)) == rest@);
            if rest@.len() == 0 {
                assert(encode_utf8(rest@) =~= Seq::<u8>::empty());
                assert(false);
            }
        }
        let ch = match crate::editor::first_char(rest) {
            Some(c2) => c2,
            None => {
                proof {
                    assert(false);
                }
                ' '
            },
        };
        let w = crate::editor::scalar_width_at(bs, j);
        proof {
            // the decoded prefix grows by exactly this character
            let pref = b.subrange(0, j + w);
            assert(valid_utf8(pref)) by {
                vstd::utf8::valid_utf8_split(b, j + w);
            }
            assert(is_char_boundary(pref, j as int)) by {
                if j > 0 {
                    assert(pref[j as int] == b[j as int]);
                    vstd::utf8::is_char_boundary_iff_not_is_continuation_byte(b, j as int);
                    vstd::utf8::is_char_boundary_iff_not_is_continuation_byte(pref, j as int);
                }
            }
            vstd::utf8::decode_utf8_split(pref, j as int);
            assert(pref.subrange(0, j as int) =~= b.subrange(0, j as int));
            let piece = pref.subrange(j as int, j + w);
            assert(piece =~= tb.subrange(0, w as int));
            assert(vstd::utf8::valid_first_scalar(tb));
            assert(vstd::utf8::valid_leading_and_continuation_bytes_first_codepoint(piece)) by {
                assert(forall|q: int| 0 <= q < w ==> piece[q] == tb[q]);
            }
            assert(vstd::utf8::decode_first_codepoint(piece)
                == vstd::utf8::decode_first_codepoint(tb));
            assert(vstd::utf8::length_of_first_codepoint(piece)
                == vstd::utf8::length_of_first_codepoint(tb));
            assert(vstd::utf8::valid_first_scalar(piece));
            assert(vstd::utf8::pop_first_scalar(piece) =~= Seq::<u8>::empty());
            assert(decode_utf8(piece) =~= seq![ch]) by {
                assert(decode_utf8(vstd::utf8::pop_first_scalar(piece)) =~= Seq::<
                    char,
                >::empty());
                assert(decode_utf8(tb)[0] == vstd::utf8::decode_first_scalar(tb) as char);
                assert(ch == rest@[0]);
            }
            assert(decode_utf8(b.subrange(0, j + w)).len() == k + 1);
            // the walked prefix stays within the whole display
            vstd::utf8::decode_utf8_split(b, j + w);
            assert(b.subrange(0, j + w) + b.subrange(j + w, n as int) =~= b);
            assert(cs.len() >= k + 1);
            assert(cs[k as int] == ch) by {
                assert(decode_utf8(b)[k as int] == decode_utf8(b.subrange(0, j + w))[k as int]);
            }
        }
        if ch == '\n' {
            row = row + 1;
            col = 0;
        } else if col >= width {
            row = row + 1;
            col = 1;
        } else {
            col = col + 1;
        }
        k = k + 1;
        j = j + w;
    }
    proof {
        if j >= n {
            assert(b.subrange(0, n as int) =~= b);
            assert(k == cs.len());
        }
    }
    (row, col)
}

} // verus!
