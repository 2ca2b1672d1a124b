use vstd::prelude::*;
use vstd::slice::slice_subrange;
use vstd::utf8::*;

use crate::roc_str::RocStr;

verus! {

/// Why a byte sequence is not UTF-8.
#[derive(Clone, Copy, Debug, PartialEq, Eq, Structural)]
pub enum Utf8ByteProblem {
    /// The byte cannot begin a sequence.
    InvalidStartByte,
    /// The input ends inside a sequence.
    UnexpectedEndOfSequence,
    /// A byte of the form `10xxxxxx` was due and another came.
    ExpectedContinuation,
    /// The sequence is longer than its scalar needs.
    OverlongEncoding,
    /// The sequence encodes a value above `0x10FFFF`.
    CodepointTooLarge,
    /// The sequence encodes a value in `0xD800..=0xDFFF`.
    EncodesSurrogateHalf,
}

/// The first problem of an input, and the offset of the first byte of the
/// sequence where it was found.
#[derive(Clone, Copy, Debug, PartialEq, Eq, Structural)]
pub struct Utf8Error {
    pub problem: Utf8ByteProblem,
    pub byte_index: usize,
}

/// The length of the sequence that byte `b` begins; 0 when it begins none.
pub open spec fn lead_width(b: u8) -> int {
    if b <= 0x7f {
        1
    } else if 0xc0 <= b <= 0xdf {
        2
    } else if 0xe0 <= b <= 0xef {
        3
    } else if 0xf0 <= b <= 0xf7 {
        4
    } else {
        0
    }
}

/// The problem of the sequence at the start of `s` (`s` not empty), checked
/// in the order a decoder meets them; `None` when it is a valid scalar.
pub open spec fn scalar_problem(s: Seq<u8>) -> Option<Utf8ByteProblem> {
    let w = lead_width(s[0]);
    if w == 0 {
        Some(Utf8ByteProblem::InvalidStartByte)
    } else if w > s.len() {
        Some(Utf8ByteProblem::UnexpectedEndOfSequence)
    } else if (w >= 2 && !is_continuation_byte(s[1])) || (w >= 3 && !is_continuation_byte(s[2]))
        || (w >= 4 && !is_continuation_byte(s[3])) {
        Some(Utf8ByteProblem::ExpectedContinuation)
    } else {
        let cp = decode_first_codepoint(s);
        if (w == 2 && cp < 0x80) || (w == 3 && cp < 0x800) || (w == 4 && cp < 0x10000) {
            Some(Utf8ByteProblem::OverlongEncoding)
        } else if cp > 0x10ffff {
            Some(Utf8ByteProblem::CodepointTooLarge)
        } else if 0xd800 <= cp <= 0xdfff {
            Some(Utf8ByteProblem::EncodesSurrogateHalf)
        } else {
            None
        }
    }
}

/// The first problem met when `s` is decoded one sequence at a time from the
/// left, with the offset of the sequence's first byte.
pub open spec fn first_problem(s: Seq<u8>) -> Option<(Utf8ByteProblem, int)>
    decreases s.len(),
{
    if s.len() == 0 {
        None
    } else if scalar_problem(s) is Some {
        Some((scalar_problem(s)->0, 0))
    } else {
        let w = lead_width(s[0]);
        if 1 <= w <= s.len() {
            match first_problem(s.subrange(w, s.len() as int)) {
                Some((p, k)) => Some((p, k + w)),
                None => None,
            }
        } else {
            None
        }
    }
}

/// What decoding `s` gives: its bytes, or the first problem and its offset.
pub open spec fn from_utf8_spec(s: Seq<u8>) -> Result<Seq<u8>, Utf8Error> {
    match first_problem(s) {
        None => Ok(s),
        Some((p, k)) => Err(Utf8Error { problem: p, byte_index: k as usize }),
    }
}

/// Adds `i` to the offset of a problem.
pub open spec fn shifted(r: Option<(Utf8ByteProblem, int)>, i: int) -> Option<(Utf8ByteProblem, int)> {
    match r {
        Some((p, k)) => Some((p, k + i)),
        None => None,
    }
}

/// A sequence without a problem is a valid scalar of the width its first byte gives.
pub proof fn lemma_scalar_problem(s: Seq<u8>)
    requires
        s.len() > 0,
    ensures
        scalar_problem(s) is None <==> valid_first_scalar(s),
        scalar_problem(s) is None ==> length_of_first_scalar(s) == lead_width(s[0]),
        scalar_problem(s) is None ==> 1 <= lead_width(s[0]) <= s.len(),
{
    let w = lead_width(s[0]);
    if 1 <= w <= s.len() {
        let b0 = s[0];
        if w == 1 {
            assert((b0 & 0x7F) as u32 <= 0x7f) by (bit_vector);
        } else if w == 2 {
            let b1 = s[1];
            assert((((b0 & 0x1F) as u32) << 6) | ((b1 & 0x3f) as u32) <= 0x7ff) by (bit_vector);
        } else if w == 3 {
            let b1 = s[1];
            let b2 = s[2];
            assert((((b0 & 0x0F) as u32) << 12) | (((b1 & 0x3f) as u32) << 6) | ((b2
                & 0x3f) as u32) <= 0xffff) by (bit_vector);
        }
    }
}

/// Decoding finds no problem exactly in valid UTF-8.
pub proof fn lemma_first_problem_valid(s: Seq<u8>)
    ensures
        first_problem(s) is None <==> valid_utf8(s),
        first_problem(s) matches Some((_, k)) ==> 0 <= k < s.len(),
    decreases s.len(),
{
    if s.len() > 0 {
        lemma_scalar_problem(s);
        if scalar_problem(s) is None {
            let w = lead_width(s[0]);
            lemma_first_problem_valid(s.subrange(w, s.len() as int));
        }
    }
}

/// Decoding past a valid prefix finds what decoding the rest alone finds,
/// with offsets moved by the prefix's length.
pub proof fn lemma_first_problem_after_valid(p: Seq<u8>, t: Seq<u8>)
    requires
        valid_utf8(p),
    ensures
        first_problem(p + t) == shifted(first_problem(t), p.len() as int),
    decreases p.len(),
{
    if p.len() == 0 {
        assert(p + t =~= t);
    } else {
        lemma_scalar_problem(p);
        let w = lead_width(p[0]);
        let s = p + t;
        assert(s.subrange(0, w) =~= p.subrange(0, w));
        assert(scalar_problem(s) == scalar_problem(p));
        let rest = p.subrange(w, p.len() as int);
        lemma_first_problem_after_valid(rest, t);
        assert(s.subrange(w, s.len() as int) =~= rest + t);
    }
}

/// Text that is valid UTF-8 decodes to itself: what `to_bytes` hands out,
/// `from_utf8` takes back unchanged.
pub proof fn law_from_utf8_round_trip(x: RocStr)
    requires
        valid_utf8(x@),
    ensures
        from_utf8_spec(x@) == Ok::<Seq<u8>, Utf8Error>(x@),
{
    lemma_first_problem_valid(x@);
}

/// After a valid prefix, a lead byte whose sequence runs past the end of the
/// input is reported as an unexpected end at the lead byte's offset.
pub proof fn law_truncated_sequence(p: Seq<u8>, t: Seq<u8>)
    requires
        valid_utf8(p),
        t.len() > 0,
        lead_width(t[0]) > t.len(),
    ensures
        from_utf8_spec(p + t) == Err::<Seq<u8>, Utf8Error>(
            Utf8Error { problem: Utf8ByteProblem::UnexpectedEndOfSequence, byte_index: p.len() as usize },
        ),
{
    lemma_first_problem_after_valid(p, t);
}

/// After a valid prefix, a byte that begins no sequence is reported as an
/// invalid start byte at its offset.
pub proof fn law_invalid_start_byte(p: Seq<u8>, t: Seq<u8>)
    requires
        valid_utf8(p),
        t.len() > 0,
        lead_width(t[0]) == 0,
    ensures
        from_utf8_spec(p + t) == Err::<Seq<u8>, Utf8Error>(
            Utf8Error { problem: Utf8ByteProblem::InvalidStartByte, byte_index: p.len() as usize },
        ),
{
    lemma_first_problem_after_valid(p, t);
}

/// The problem of the sequence that begins at `i`; when there is none, its
/// width and the scalar it encodes.
pub(crate) fn problem_at(s: &[u8], i: usize) -> (r: (Option<Utf8ByteProblem>, usize, u32))
    requires
        i < s@.len(),
    ensures
        r.0 == scalar_problem(s@.subrange(i as int, s@.len() as int)),
        r.0 is None ==> r.1 == lead_width(s@[i as int]),
        r.0 is None ==> r.2 == decode_first_codepoint(s@.subrange(i as int, s@.len() as int)),
{
    let ghost t = s@.subrange(i as int, s@.len() as int);
    let n = s.len();
    let rest: usize = n - i;
    let b0 = s[i];
    let w: usize = if b0 <= 0x7f {
        1
    } else if 0xc0 <= b0 && b0 <= 0xdf {
        2
    } else if 0xe0 <= b0 && b0 <= 0xef {
        3
    } else if 0xf0 <= b0 && b0 <= 0xf7 {
        4
    } else {
        0
    };
    assert(w == lead_width(t[0]));
    if w == 0 {
        return (Some(Utf8ByteProblem::InvalidStartByte), 0, 0);
    }
    if w > rest {
        return (Some(Utf8ByteProblem::UnexpectedEndOfSequence), 0, 0);
    }
    if w == 1 {
        let cp: u32 = (b0 & 0x7F) as u32;
        return (None, 1, cp);
    }
    let b1 = s[i + 1];
    assert(b1 == t[1]);
    if !(0x80 <= b1 && b1 <= 0xbf) {
        return (Some(Utf8ByteProblem::ExpectedContinuation), 0, 0);
    }
    if w == 2 {
        let cp: u32 = (((b0 & 0x1F) as u32) << 6) | ((b1 & 0x3f) as u32);
        assert(cp == decode_first_codepoint(t));
        if cp < 0x80 {
            return (Some(Utf8ByteProblem::OverlongEncoding), 0, 0);
        }
        assert(cp <= 0x7ff) by (bit_vector)
            requires cp == (((b0 & 0x1F) as u32) << 6) | ((b1 & 0x3f) as u32);
        return (None, 2, cp);
    }
    let b2 = s[i + 2];
    assert(b2 == t[2]);
    if !(0x80 <= b2 && b2 <= 0xbf) {
        return (Some(Utf8ByteProblem::ExpectedContinuation), 0, 0);
    }
    if w == 3 {
        let cp: u32 = (((b0 & 0x0F) as u32) << 12) | (((b1 & 0x3f) as u32) << 6) | ((b2
            & 0x3f) as u32);
        assert(cp == decode_first_codepoint(t));
        if cp < 0x800 {
            return (Some(Utf8ByteProblem::OverlongEncoding), 0, 0);
        }
        assert(cp <= 0xffff) by (bit_vector)
            requires cp == (((b0 & 0x0F) as u32) << 12) | (((b1 & 0x3f) as u32) << 6) | ((b2
                & 0x3f) as u32);
        if 0xd800 <= cp && cp <= 0xdfff {
            return (Some(Utf8ByteProblem::EncodesSurrogateHalf), 0, 0);
        }
        return (None, 3, cp);
    }
    let b3 = s[i + 3];
    assert(b3 == t[3]);
    if !(0x80 <= b3 && b3 <= 0xbf) {
        return (Some(Utf8ByteProblem::ExpectedContinuation), 0, 0);
    }
    let cp: u32 = (((b0 & 0x07) as u32) << 18) | (((b1 & 0x3f) as u32) << 12) | (((b2
        & 0x3f) as u32) << 6) | ((b3 & 0x3f) as u32);
    assert(cp == decode_first_codepoint(t));
    if cp < 0x10000 {
        return (Some(Utf8ByteProblem::OverlongEncoding), 0, 0);
    }
    if cp > 0x10ffff {
        return (Some(Utf8ByteProblem::CodepointTooLarge), 0, 0);
    }
    (None, 4, cp)
}

/// Checks that `bytes` are UTF-8, one sequence at a time from the left.
fn validate(bytes: &[u8]) -> (r: Option<Utf8Error>)
    ensures
        match first_problem(bytes@) {
            None => r is None,
            Some((p, k)) => r == Some(Utf8Error { problem: p, byte_index: k as usize }),
        },
{
    let n = bytes.len();
    let mut i: usize = 0;
    assert(bytes@.subrange(0, n as int) =~= bytes@);
    while i < n
        invariant
            n == bytes@.len(),
            i <= n,
            first_problem(bytes@) == shifted(first_problem(bytes@.subrange(i as int, n as int)), i as int),
        decreases n - i,
    {
        let ghost t = bytes@.subrange(i as int, n as int);
        let (p, w, _) = problem_at(bytes, i);
        proof {
            lemma_scalar_problem(t);
        }
        match p {
            Some(problem) => {
                return Some(Utf8Error { problem, byte_index: i });
            },
            None => {
                proof {
                    assert(t.subrange(w as int, t.len() as int) =~= bytes@.subrange(i + w, n as int));
                }
                i = i + w;
            },
        }
    }
    None
}

impl RocStr {
    /// The value holding `bytes` when they are UTF-8; otherwise the first
    /// problem found and the offset of the sequence where it was found.
    pub fn from_utf8(bytes: &[u8]) -> (r: Result<RocStr, Utf8Error>)
        ensures
            match from_utf8_spec(bytes@) {
                Ok(s) => r matches Ok(v) && v@ == s,
                Err(e) => r matches Err(e2) && e2 == e,
            },
            r is Ok <==> valid_utf8(bytes@),
    {
        proof {
            lemma_first_problem_valid(bytes@);
        }
        match validate(bytes) {
            None => Ok(RocStr::from_slice(bytes)),
            Some(e) => Err(e),
        }
    }

    /// As `from_utf8`, on the `count` bytes that begin at `start`; offsets are
    /// counted from `start`.
    pub fn from_utf8_range(bytes: &[u8], start: usize, count: usize) -> (r: Result<RocStr, Utf8Error>)
        requires
            start + count <= bytes@.len(),
        ensures
            match from_utf8_spec(bytes@.subrange(start as int, start + count)) {
                Ok(s) => r matches Ok(v) && v@ == s,
                Err(e) => r matches Err(e2) && e2 == e,
            },
    {
        let len = bytes.len();
        assert(start + count <= len);
        RocStr::from_utf8(slice_subrange(bytes, start, start + count))
    }
}

} // verus!
