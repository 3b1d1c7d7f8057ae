//! Digests and text segments of extracted content. A subject's normalized
//! text is stored as consecutive segments; each carries its own digest, and
//! together they must add up to the subject's character count and digest.

use vstd::prelude::*;
use vstd::utf8::encode_utf8;
use vstd::string::StrSliceExecFns;
use crate::digest::{sha256_hex_text, sha256_hex_of_text};
use crate::text::{str_chars, push_str, string_from_chars, same_text};

verus! {

pub open spec fn lower_hex_byte(b: u8) -> bool {
    (48 <= b <= 57) || (97 <= b <= 102)
}

/// A lower-case hexadecimal SHA-256: 64 bytes, each a digit or `a`-`f`.
pub open spec fn sha256_shaped(s: Seq<char>) -> bool {
    &&& encode_utf8(s).len() == 64
    &&& forall|i: int| 0 <= i < 64 ==> lower_hex_byte(#[trigger] encode_utf8(s)[i])
}

/// Whether a value is a lower-case hexadecimal SHA-256.
pub fn is_sha256(value: &str) -> (ok: bool)
    ensures
        ok == sha256_shaped(value@),
{
    let bytes = value.as_bytes();
    if bytes.len() != 64 {
        return false;
    }
    let mut i: usize = 0;
    while i < 64
        invariant
            0 <= i <= 64,
            bytes@ == encode_utf8(value@),
            bytes@.len() == 64,
            forall|j: int| 0 <= j < i ==> lower_hex_byte(#[trigger] bytes@[j]),
        decreases 64 - i,
    {
        let b = bytes[i];
        if !((48 <= b && b <= 57) || (97 <= b && b <= 102)) {
            return false;
        }
        i = i + 1;
    }
    true
}

/// One stored segment of a subject's normalized text.
#[derive(Clone, Debug)]
pub struct TextSegmentInput {
    pub ordinal: u32,
    pub char_start: u64,
    pub char_end: u64,
    pub text: String,
    pub text_sha256: String,
}

/// Why the segments of a subject are refused.
#[derive(Clone, Copy, Debug, PartialEq, Eq, Structural)]
pub enum SegmentProblem {
    /// The segment with this ordinal is out of place or inconsistent.
    InvalidSegment(u32),
    /// The segments do not add up to the subject's character count.
    CharCountMismatch,
    /// The segments do not hash to the subject's normalized digest.
    DigestMismatch,
    /// The subject has text but no normalized digest.
    MissingDigest,
}

/// Where segment `i` must start: where the previous one ended.
pub open spec fn expected_start(segs: Seq<TextSegmentInput>, i: int) -> int {
    if i <= 0 {
        0
    } else {
        segs[i - 1].char_end as int
    }
}

/// A segment in its place: its ordinal is its position, it starts where
/// the previous one ended, it spans exactly its characters (the end
/// saturating at `u64::MAX`), it is not empty and within the segment limit,
/// and its digest is a well-formed SHA-256 of its text; its end fits an
/// `i64`.
pub open spec fn segment_ok(seg: TextSegmentInput, position: int, start: int, max_segment_chars: u64) -> bool {
    let chars = seg.text@.len();
    &&& seg.ordinal == position
    &&& seg.char_start == start
    &&& seg.char_end == (if seg.char_start + chars > u64::MAX {
        u64::MAX as int
    } else {
        seg.char_start + chars
    })
    &&& chars > 0
    &&& chars <= max_segment_chars
    &&& sha256_shaped(seg.text_sha256@)
    &&& sha256_hex_of_text(seg.text@) == seg.text_sha256@
    &&& seg.char_end <= i64::MAX
}

/// The first of the first `n` segments that is not in its place.
pub open spec fn first_invalid(segs: Seq<TextSegmentInput>, max_segment_chars: u64, n: int) -> Option<int>
    decreases n,
{
    if n <= 0 {
        None
    } else {
        match first_invalid(segs, max_segment_chars, n - 1) {
            Some(i) => Some(i),
            None => if !segment_ok(segs[n - 1], n - 1, expected_start(segs, n - 1), max_segment_chars) {
                Some(n - 1)
            } else {
                None
            },
        }
    }
}

/// The texts of the segments, in order.
pub open spec fn joined(segs: Seq<TextSegmentInput>) -> Seq<char>
    decreases segs.len(),
{
    if segs.len() == 0 {
        Seq::empty()
    } else {
        joined(segs.drop_last()) + segs.last().text@
    }
}

/// The verdict on a subject's segments: the first segment out of place,
/// then the character count, then the digest.
pub open spec fn segments_verdict(
    segs: Seq<TextSegmentInput>,
    normalized_chars: u64,
    normalized_sha256: Option<Seq<char>>,
    max_segment_chars: u64,
) -> Result<(), SegmentProblem> {
    match first_invalid(segs, max_segment_chars, segs.len() as int) {
        Some(i) => Err(SegmentProblem::InvalidSegment(segs[i].ordinal)),
        None => {
            let end = if segs.len() == 0 {
                0
            } else {
                segs.last().char_end as int
            };
            if end != normalized_chars {
                Err(SegmentProblem::CharCountMismatch)
            } else {
                match normalized_sha256 {
                    Some(d) => if sha256_hex_of_text(joined(segs)) != d {
                        Err(SegmentProblem::DigestMismatch)
                    } else {
                        Ok(())
                    },
                    None => if segs.len() > 0 || normalized_chars != 0 {
                        Err(SegmentProblem::MissingDigest)
                    } else {
                        Ok(())
                    },
                }
            }
        },
    }
}

proof fn lemma_first_invalid_stays(segs: Seq<TextSegmentInput>, limit: u64, k: int, n: int)
    requires
        0 <= k <= n,
        first_invalid(segs, limit, k) is Some,
    ensures
        first_invalid(segs, limit, n) == first_invalid(segs, limit, k),
    decreases n - k,
{
    if k < n {
        lemma_first_invalid_stays(segs, limit, k, n - 1);
    }
}

/// Check the segments of one subject against its character count and its
/// normalized digest.
pub fn check_segments(
    segments: &Vec<TextSegmentInput>,
    normalized_chars: u64,
    normalized_sha256: Option<&str>,
    max_segment_chars: u64,
) -> (r: Result<(), SegmentProblem>)
    ensures
        r == segments_verdict(
            segments@,
            normalized_chars,
            match normalized_sha256 {
                Some(d) => Some(d@),
                None => None,
            },
            max_segment_chars,
        ),
{
    let ghost segs = segments@;
    let mut next_char: u64 = 0;
    let mut all: Vec<char> = Vec::new();
    let mut i: usize = 0;
    while i < segments.len()
        invariant
            0 <= i <= segs.len(),
            segs == segments@,
            first_invalid(segs, max_segment_chars, i as int) is None,
            next_char == expected_start(segs, i as int),
            all@ == joined(segs.take(i as int)),
        decreases segs.len() - i,
    {
        let segment = &segments[i];
        let text = str_chars(segment.text.as_str());
        let chars = text.len() as u64;
        let end = segment.char_start.saturating_add(chars);
        let ok = segment.ordinal as usize == i && segment.char_start == next_char && segment.char_end == end
            && chars > 0 && chars <= max_segment_chars && is_sha256(segment.text_sha256.as_str())
            && same_text(sha256_hex_text(segment.text.as_str()).as_str(), segment.text_sha256.as_str())
            && segment.char_end <= 0x7fff_ffff_ffff_ffff;
        if !ok {
            assert(first_invalid(segs, max_segment_chars, i + 1) == Some(i as int));
            proof {
                lemma_first_invalid_stays(segs, max_segment_chars, i + 1, segs.len() as int);
            }
            return Err(SegmentProblem::InvalidSegment(segment.ordinal));
        }
        assert(segs.take(i + 1).drop_last() =~= segs.take(i as int));
        push_str(&mut all, segment.text.as_str());
        next_char = segment.char_end;
        i = i + 1;
    }
    assert(segs.take(i as int) =~= segs);
    if next_char != normalized_chars {
        return Err(SegmentProblem::CharCountMismatch);
    }
    match normalized_sha256 {
        Some(expected) => {
            let text = string_from_chars(all.as_slice());
            if same_text(sha256_hex_text(text.as_str()).as_str(), expected) {
                Ok(())
            } else {
                Err(SegmentProblem::DigestMismatch)
            }
        },
        None => {
            if segments.len() > 0 || normalized_chars != 0 {
                Err(SegmentProblem::MissingDigest)
            } else {
                Ok(())
            }
        },
    }
}

} // verus!
